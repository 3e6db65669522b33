//! What the documents of unified reports say of their rows, and how they agree with themselves.

use vstd::prelude::*;
use vstd::string::*;
use crate::all::document::{
    agent_fields, breakdown_fields, metadata_fields, row_fields, rows_costs, rows_counts,
    rows_model, rows_of_kind, rows_tokens, sections_fields, sums_fit, totals_fields,
    ReportTotals,
};
use crate::all::labels::rows_key_text;
use crate::all::rows::{AgentReportKind, AllRow};
use crate::json::JsonModel;
use crate::sums::{lemma_sum_same, sum_by};

verus! {

/// There is a field of the given name, and every field of that name has the given value.
pub open spec fn says(
    fields: Seq<(Seq<char>, JsonModel)>,
    name: Seq<char>,
    value: JsonModel,
) -> bool {
    &&& exists|i: int| 0 <= i < fields.len() && #[trigger] fields[i] == (name, value)
    &&& forall|i: int|
        0 <= i < fields.len() && (#[trigger] fields[i]).0 == name ==> fields[i].1 == value
}

/// There is no field of the given name.
pub open spec fn is_silent(fields: Seq<(Seq<char>, JsonModel)>, name: Seq<char>) -> bool {
    forall|i: int| 0 <= i < fields.len() ==> (#[trigger] fields[i]).0 != name
}

/// The document is the list of the given texts.
pub open spec fn lists_texts(doc: JsonModel, list: Seq<String>) -> bool {
    &&& doc is Array
    &&& doc->Array_0.len() == list.len()
    &&& forall|i: int|
        0 <= i < list.len() ==> #[trigger] doc->Array_0[i] == JsonModel::Text(list[i]@)
}

/// The fields say what a row or an agent of it used.
pub open spec fn tells_usage(fields: Seq<(Seq<char>, JsonModel)>, row: AllRow) -> bool {
    &&& says(fields, "agent"@, JsonModel::Text(row.agent@))
    &&& exists|doc: JsonModel| #[trigger]
        lists_texts(doc, row.models_used@) && says(fields, "modelsUsed"@, doc)
    &&& says(fields, "inputTokens"@, JsonModel::Number(row.input_tokens as nat))
    &&& says(fields, "outputTokens"@, JsonModel::Number(row.output_tokens as nat))
    &&& says(fields, "cacheCreationTokens"@, JsonModel::Number(row.cache_creation_tokens as nat))
    &&& says(fields, "cacheReadTokens"@, JsonModel::Number(row.cache_read_tokens as nat))
    &&& says(fields, "totalTokens"@, JsonModel::Number(row.total_tokens as nat))
    &&& says(fields, "totalCost"@, JsonModel::Money(row.total_cost))
    &&& says(fields, "modelBreakdowns"@, JsonModel::Breakdowns(row.model_breakdowns@))
}

/// The document is the list of the given agents, each with its usage.
pub open spec fn lists_agents(doc: JsonModel, agents: Seq<AllRow>) -> bool {
    &&& doc is Array
    &&& doc->Array_0.len() == agents.len()
    &&& forall|i: int|
        0 <= i < agents.len() ==> {
            &&& (#[trigger] doc->Array_0[i]) is Object
            &&& doc->Array_0[i]->Object_0.len() == 9
            &&& tells_usage(doc->Array_0[i]->Object_0, agents[i])
        }
}

/// The fields are those of a row: its usage, its period, its metadata where it has some, and its
/// agents where they are wanted and it has them.
pub open spec fn tells_row(
    fields: Seq<(Seq<char>, JsonModel)>,
    row: AllRow,
    include_agents: bool,
) -> bool {
    &&& tells_usage(fields, row)
    &&& says(fields, "period"@, JsonModel::Text(row.period@))
    &&& match (row.metadata, row.metadata_agents) {
        (Some(metadata), _) => says(fields, "metadata"@, JsonModel::Written(metadata@)),
        (None, Some(agents)) => exists|doc: JsonModel| #[trigger]
            lists_texts(doc, agents@) && says(
                fields,
                "metadata"@,
                JsonModel::Object(seq![("agents"@, doc)]),
            ),
        (None, None) => is_silent(fields, "metadata"@),
    }
    &&& row.agent_breakdowns is Some && include_agents ==> exists|doc: JsonModel| #[trigger]
        lists_agents(doc, row.agent_breakdowns->Some_0@) && says(fields, "agents"@, doc)
    &&& row.agent_breakdowns is None || !include_agents ==> is_silent(fields, "agents"@)
    &&& fields.len() == 10 + (if row.metadata is Some || row.metadata_agents is Some {
        1int
    } else {
        0
    }) + (if row.agent_breakdowns is Some && include_agents {
        1int
    } else {
        0
    })
}

/// The document is the list of the given rows, in order.
pub open spec fn lists_rows(doc: JsonModel, rows: Seq<AllRow>, include_agents: bool) -> bool {
    &&& doc is Array
    &&& doc->Array_0.len() == rows.len()
    &&& forall|i: int|
        0 <= i < rows.len() ==> {
            &&& (#[trigger] doc->Array_0[i]) is Object
            &&& tells_row(doc->Array_0[i]->Object_0, rows[i], include_agents)
        }
}

/// The document has the sums of what the rows used, and their costs in order.
pub open spec fn adds_up(doc: JsonModel, rows: Seq<AllRow>) -> bool {
    let fields = doc->Object_0;
    &&& doc is Object
    &&& fields.len() == 6
    &&& says(
        fields,
        "inputTokens"@,
        JsonModel::Number(sum_by(rows, |row: AllRow| row.input_tokens as nat)),
    )
    &&& says(
        fields,
        "outputTokens"@,
        JsonModel::Number(sum_by(rows, |row: AllRow| row.output_tokens as nat)),
    )
    &&& says(
        fields,
        "cacheCreationTokens"@,
        JsonModel::Number(sum_by(rows, |row: AllRow| row.cache_creation_tokens as nat)),
    )
    &&& says(
        fields,
        "cacheReadTokens"@,
        JsonModel::Number(sum_by(rows, |row: AllRow| row.cache_read_tokens as nat)),
    )
    &&& says(
        fields,
        "totalTokens"@,
        JsonModel::Number(sum_by(rows, |row: AllRow| row.total_tokens as nat)),
    )
    &&& says(
        fields,
        "totalCost"@,
        JsonModel::MoneySum(Seq::new(rows.len(), |i: int| rows[i].total_cost)),
    )
}

/// A name's length and its first character, which tell the names of a document apart.
spec fn mark(name: Seq<char>) -> (nat, char) {
    (name.len(), name[0])
}

proof fn lemma_marks()
    ensures
        mark("agent"@) == (5nat, 'a'),
        mark("modelsUsed"@) == (10nat, 'm'),
        mark("inputTokens"@) == (11nat, 'i'),
        mark("outputTokens"@) == (12nat, 'o'),
        mark("cacheCreationTokens"@) == (19nat, 'c'),
        mark("cacheReadTokens"@) == (15nat, 'c'),
        mark("totalTokens"@) == (11nat, 't'),
        mark("totalCost"@) == (9nat, 't'),
        mark("modelBreakdowns"@) == (15nat, 'm'),
        mark("period"@) == (6nat, 'p'),
        mark("metadata"@) == (8nat, 'm'),
        mark("agents"@) == (6nat, 'a'),
{
    reveal_strlit("agent");
    reveal_strlit("modelsUsed");
    reveal_strlit("inputTokens");
    reveal_strlit("outputTokens");
    reveal_strlit("cacheCreationTokens");
    reveal_strlit("cacheReadTokens");
    reveal_strlit("totalTokens");
    reveal_strlit("totalCost");
    reveal_strlit("modelBreakdowns");
    reveal_strlit("period");
    reveal_strlit("metadata");
    reveal_strlit("agents");
}

proof fn lemma_says(fields: Seq<(Seq<char>, JsonModel)>, at: int, name: Seq<char>, value: JsonModel)
    requires
        0 <= at < fields.len(),
        fields[at] == (name, value),
        forall|i: int|
            0 <= i < fields.len() && i != at ==> mark((#[trigger] fields[i]).0) != mark(name),
    ensures
        says(fields, name, value),
{
}

proof fn lemma_agent_fields(row: AllRow)
    ensures
        tells_usage(agent_fields(row), row),
        agent_fields(row).len() == 9,
        says(agent_fields(row), "modelsUsed"@, agent_fields(row)[1].1),
        lists_texts(agent_fields(row)[1].1, row.models_used@),
{
    let fields = agent_fields(row);
    lemma_marks();
    lemma_says(fields, 0, "agent"@, fields[0].1);
    lemma_says(fields, 1, "modelsUsed"@, fields[1].1);
    lemma_says(fields, 2, "inputTokens"@, fields[2].1);
    lemma_says(fields, 3, "outputTokens"@, fields[3].1);
    lemma_says(fields, 4, "cacheCreationTokens"@, fields[4].1);
    lemma_says(fields, 5, "cacheReadTokens"@, fields[5].1);
    lemma_says(fields, 6, "totalTokens"@, fields[6].1);
    lemma_says(fields, 7, "totalCost"@, fields[7].1);
    lemma_says(fields, 8, "modelBreakdowns"@, fields[8].1);
    assert(lists_texts(fields[1].1, row.models_used@));
}

/// An agent of a report, as a document, says what it used, and nothing else.
pub proof fn agents_tell_their_usage(row: AllRow, doc: JsonModel)
    requires
        doc == JsonModel::Object(agent_fields(row)),
    ensures
        tells_usage(doc->Object_0, row),
        doc->Object_0.len() == 9,
{
    lemma_agent_fields(row);
}

/// A row of a report, as a document, says what it used, its period, its metadata and its agents,
/// and nothing else.
pub proof fn rows_tell_their_usage(row: AllRow, include_agents: bool, doc: JsonModel)
    requires
        doc == JsonModel::Object(row_fields(row, include_agents)),
    ensures
        tells_row(doc->Object_0, row, include_agents),
{
    let fields = row_fields(row, include_agents);
    let metadata = metadata_fields(row);
    let agents = breakdown_fields(row, include_agents);
    let usage = agent_fields(row);
    lemma_marks();
    lemma_agent_fields(row);
    let n = 10 + metadata.len() as int;
    assert(forall|i: int| 0 <= i < 9 ==> fields[i] == #[trigger] usage[i]);
    assert(fields[9] == ("period"@, JsonModel::Text(row.period@)));
    assert(fields.len() == n + agents.len());
    assert(metadata.len() <= 1 && agents.len() <= 1);
    assert(metadata.len() == 1 ==> fields[10] == metadata[0] && metadata[0].0 == "metadata"@);
    assert(agents.len() == 1 ==> fields[n] == agents[0] && agents[0].0 == "agents"@);
    assert forall|i: int| 0 <= i < fields.len() implies {
        let name = (#[trigger] fields[i]).0;
        ||| i == 0 && name == usage[0].0
        ||| i == 1 && name == usage[1].0
        ||| i == 2 && name == usage[2].0
        ||| i == 3 && name == usage[3].0
        ||| i == 4 && name == usage[4].0
        ||| i == 5 && name == usage[5].0
        ||| i == 6 && name == usage[6].0
        ||| i == 7 && name == usage[7].0
        ||| i == 8 && name == usage[8].0
        ||| i == 9 && name == "period"@
        ||| i == 10 && metadata.len() == 1 && name == "metadata"@
        ||| i == n && agents.len() == 1 && name == "agents"@
    } by {}
    lemma_says(fields, 0, "agent"@, usage[0].1);
    lemma_says(fields, 1, "modelsUsed"@, usage[1].1);
    lemma_says(fields, 2, "inputTokens"@, usage[2].1);
    lemma_says(fields, 3, "outputTokens"@, usage[3].1);
    lemma_says(fields, 4, "cacheCreationTokens"@, usage[4].1);
    lemma_says(fields, 5, "cacheReadTokens"@, usage[5].1);
    lemma_says(fields, 6, "totalTokens"@, usage[6].1);
    lemma_says(fields, 7, "totalCost"@, usage[7].1);
    lemma_says(fields, 8, "modelBreakdowns"@, usage[8].1);
    lemma_says(fields, 9, "period"@, JsonModel::Text(row.period@));
    if metadata.len() == 1 {
        lemma_says(fields, 10, "metadata"@, metadata[0].1);
    } else {
        assert forall|i: int| 0 <= i < fields.len() implies (#[trigger] fields[i]).0
            != "metadata"@ by {
            assert(mark(fields[i].0) != mark("metadata"@));
        }
    }
    match (row.metadata, row.metadata_agents) {
        (None, Some(list)) => {
            let inner = metadata[0].1->Object_0;
            assert(lists_texts(inner[0].1, list@));
            assert(inner =~= seq![("agents"@, inner[0].1)]);
            assert(metadata[0].1 == JsonModel::Object(seq![("agents"@, inner[0].1)]));
        },
        _ => {},
    }
    if agents.len() == 1 {
        lemma_says(fields, n, "agents"@, agents[0].1);
        let list = row.agent_breakdowns->Some_0@;
        let doc_agents = agents[0].1;
        assert forall|i: int| 0 <= i < list.len() implies {
            &&& (#[trigger] doc_agents->Array_0[i]) is Object
            &&& doc_agents->Array_0[i]->Object_0.len() == 9
            &&& tells_usage(doc_agents->Array_0[i]->Object_0, list[i])
        } by {
            lemma_agent_fields(list[i]);
        }
        assert(lists_agents(doc_agents, list));
    } else {
        assert forall|i: int| 0 <= i < fields.len() implies (#[trigger] fields[i]).0
            != "agents"@ by {
            assert(mark(fields[i].0) != mark("agents"@));
        }
    }
}

proof fn lemma_rows_listed(rows: Seq<AllRow>, include_agents: bool)
    ensures
        lists_rows(rows_model(rows, include_agents), rows, include_agents),
{
    let doc = rows_model(rows, include_agents);
    assert forall|i: int| 0 <= i < rows.len() implies {
        &&& (#[trigger] doc->Array_0[i]) is Object
        &&& tells_row(doc->Array_0[i]->Object_0, rows[i], include_agents)
    } by {
        rows_tell_their_usage(rows[i], include_agents, doc->Array_0[i]);
    }
}

proof fn lemma_sums(rows: Seq<AllRow>)
    ensures
        rows_counts(rows).input == sum_by(rows, |row: AllRow| row.input_tokens as nat),
        rows_counts(rows).output == sum_by(rows, |row: AllRow| row.output_tokens as nat),
        rows_counts(rows).cache_creation == sum_by(
            rows,
            |row: AllRow| row.cache_creation_tokens as nat,
        ),
        rows_counts(rows).cache_read == sum_by(rows, |row: AllRow| row.cache_read_tokens as nat),
        rows_tokens(rows) == sum_by(rows, |row: AllRow| row.total_tokens as nat),
    decreases rows.len(),
{
    if rows.len() > 0 {
        lemma_sums(rows.drop_last());
    }
}

/// The sums of the columns of a report, read off its rows.
pub proof fn column_sums_add_up(rows: Seq<AllRow>, totals: ReportTotals)
    requires
        totals.are_of(rows),
    ensures
        totals.input_tokens == sum_by(rows, |row: AllRow| row.input_tokens as nat),
        totals.output_tokens == sum_by(rows, |row: AllRow| row.output_tokens as nat),
        totals.cache_creation_tokens == sum_by(rows, |row: AllRow| row.cache_creation_tokens as nat),
        totals.cache_read_tokens == sum_by(rows, |row: AllRow| row.cache_read_tokens as nat),
        totals.total_tokens == sum_by(rows, |row: AllRow| row.total_tokens as nat),
        totals.costs@ == Seq::new(rows.len(), |i: int| rows[i].total_cost),
{
    lemma_sums(rows);
    assert(rows_costs(rows) =~= Seq::new(rows.len(), |i: int| rows[i].total_cost));
}

/// The totals of a report are the sums over its rows.
pub proof fn totals_add_up(rows: Seq<AllRow>, doc: JsonModel)
    requires
        doc == JsonModel::Object(totals_fields(rows)),
    ensures
        adds_up(doc, rows),
{
    let fields = totals_fields(rows);
    lemma_marks();
    lemma_sums(rows);
    assert(rows_costs(rows) =~= Seq::new(rows.len(), |i: int| rows[i].total_cost));
    lemma_says(fields, 0, "inputTokens"@, fields[0].1);
    lemma_says(fields, 1, "outputTokens"@, fields[1].1);
    lemma_says(fields, 2, "cacheCreationTokens"@, fields[2].1);
    lemma_says(fields, 3, "cacheReadTokens"@, fields[3].1);
    lemma_says(fields, 4, "totalTokens"@, fields[4].1);
    lemma_says(fields, 5, "totalCost"@, fields[5].1);
}

/// The key under which a report has rows of a kind.
pub open spec fn is_key(key: Seq<char>, kind: AgentReportKind) -> bool {
    &&& kind is Daily ==> key == "daily"@
    &&& kind is Weekly ==> key == "weekly"@
    &&& kind is Monthly ==> key == "monthly"@
    &&& kind is Session ==> key == "session"@
}

/// A report of one section lists its rows under the key of its kind, and their sums as totals.
pub proof fn reports_list_their_rows(
    rows: Seq<AllRow>,
    kind: AgentReportKind,
    include_agents: bool,
    doc: JsonModel,
)
    requires
        doc == JsonModel::Object(
            seq![
                (rows_key_text(kind)@, rows_model(rows, include_agents)),
                ("totals"@, JsonModel::Object(totals_fields(rows))),
            ],
        ),
    ensures
        doc->Object_0.len() == 2,
        is_key(doc->Object_0[0].0, kind),
        lists_rows(doc->Object_0[0].1, rows, include_agents),
        doc->Object_0[1].0 == "totals"@,
        adds_up(doc->Object_0[1].1, rows),
{
    lemma_rows_listed(rows, include_agents);
    totals_add_up(rows, JsonModel::Object(totals_fields(rows)));
}

/// A report of several sections lists each of them in order under the key of its kind, and at the
/// end the sums over the section of the command: the first of its kind, or no rows where there is
/// none.
pub proof fn sections_list_their_rows(
    sections: Seq<(AgentReportKind, Vec<AllRow>)>,
    command_kind: AgentReportKind,
    include_agents: bool,
    fields: Seq<(Seq<char>, JsonModel)>,
)
    requires
        fields == sections_fields(sections, command_kind, include_agents),
    ensures
        fields.len() == sections.len() + 1,
        forall|i: int|
            0 <= i < sections.len() ==> {
                &&& is_key((#[trigger] fields[i]).0, sections[i].0)
                &&& lists_rows(fields[i].1, sections[i].1@, include_agents)
            },
        fields.last().0 == "totals"@,
        forall|k: int|
            0 <= k < sections.len() && (#[trigger] sections[k]).0 == command_kind && (forall|i: int|
                0 <= i < k ==> (#[trigger] sections[i]).0 != command_kind) ==> adds_up(
                fields.last().1,
                sections[k].1@,
            ),
        (forall|i: int| 0 <= i < sections.len() ==> (#[trigger] sections[i]).0 != command_kind)
            ==> adds_up(fields.last().1, Seq::empty()),
{
    assert forall|i: int| 0 <= i < sections.len() implies {
        &&& is_key((#[trigger] fields[i]).0, sections[i].0)
        &&& lists_rows(fields[i].1, sections[i].1@, include_agents)
    } by {
        lemma_rows_listed(sections[i].1@, include_agents);
    }
    let rows = rows_of_kind(sections, command_kind);
    totals_add_up(rows, fields.last().1);
    assert forall|k: int|
        0 <= k < sections.len() && (#[trigger] sections[k]).0 == command_kind && (forall|i: int|
            0 <= i < k ==> (#[trigger] sections[i]).0 != command_kind) implies adds_up(
        fields.last().1,
        sections[k].1@,
    ) by {
        lemma_first_of_kind(sections, command_kind, k);
    }
    if forall|i: int| 0 <= i < sections.len() ==> (#[trigger] sections[i]).0 != command_kind {
        lemma_none_of_kind(sections, command_kind);
    }
}

proof fn lemma_first_of_kind(
    sections: Seq<(AgentReportKind, Vec<AllRow>)>,
    kind: AgentReportKind,
    k: int,
)
    requires
        0 <= k < sections.len(),
        sections[k].0 == kind,
        forall|i: int| 0 <= i < k ==> (#[trigger] sections[i]).0 != kind,
    ensures
        rows_of_kind(sections, kind) == sections[k].1@,
    decreases k,
{
    if k > 0 {
        let rest = sections.drop_first();
        assert(sections[0].0 != kind);
        assert forall|i: int| 0 <= i < k - 1 implies (#[trigger] rest[i]).0 != kind by {
            assert(sections[i + 1].0 != kind);
        }
        lemma_first_of_kind(rest, kind, k - 1);
    }
}

proof fn lemma_none_of_kind(sections: Seq<(AgentReportKind, Vec<AllRow>)>, kind: AgentReportKind)
    requires
        forall|i: int| 0 <= i < sections.len() ==> (#[trigger] sections[i]).0 != kind,
    ensures
        rows_of_kind(sections, kind) == Seq::<AllRow>::empty(),
    decreases sections.len(),
{
    if sections.len() > 0 {
        let rest = sections.drop_first();
        assert(sections[0].0 != kind);
        assert forall|i: int| 0 <= i < rest.len() implies (#[trigger] rest[i]).0 != kind by {
            assert(sections[i + 1].0 != kind);
        }
        lemma_none_of_kind(rest, kind);
    }
}

/// The count that an object has under a name.
pub open spec fn number_under(doc: JsonModel, name: Seq<char>) -> nat {
    choose|n: nat| says(doc->Object_0, name, JsonModel::Number(n))
}

proof fn lemma_number_under(doc: JsonModel, name: Seq<char>, n: nat)
    requires
        says(doc->Object_0, name, JsonModel::Number(n)),
    ensures
        number_under(doc, name) == n,
{
    let fields = doc->Object_0;
    let m = number_under(doc, name);
    assert(says(fields, name, JsonModel::Number(m)));
    let i = choose|i: int|
        0 <= i < fields.len() && #[trigger] fields[i] == (name, JsonModel::Number(n));
    assert(fields[i].1 == JsonModel::Number(m));
}

/// A name of a count that both rows and totals have.
pub open spec fn is_count(name: Seq<char>) -> bool {
    ||| name == "inputTokens"@
    ||| name == "outputTokens"@
    ||| name == "cacheCreationTokens"@
    ||| name == "cacheReadTokens"@
    ||| name == "totalTokens"@
}

/// A report agrees with itself: what its rows have under the name of a count adds up to what its
/// totals have under the same name.
pub proof fn rows_add_up_to_the_totals(
    rows: Seq<AllRow>,
    include_agents: bool,
    listed: JsonModel,
    totals: JsonModel,
    name: Seq<char>,
)
    requires
        listed == rows_model(rows, include_agents),
        totals == JsonModel::Object(totals_fields(rows)),
        is_count(name),
    ensures
        says(
            totals->Object_0,
            name,
            JsonModel::Number(
                sum_by(listed->Array_0, |item: JsonModel| number_under(item, name)),
            ),
        ),
{
    lemma_marks();
    lemma_rows_listed(rows, include_agents);
    totals_add_up(rows, totals);
    let number = |item: JsonModel| number_under(item, name);
    let items = listed->Array_0;
    let input = |row: AllRow| row.input_tokens as nat;
    let output = |row: AllRow| row.output_tokens as nat;
    let creation = |row: AllRow| row.cache_creation_tokens as nat;
    let read = |row: AllRow| row.cache_read_tokens as nat;
    let total = |row: AllRow| row.total_tokens as nat;
    let value = if name == "inputTokens"@ {
        input
    } else if name == "outputTokens"@ {
        output
    } else if name == "cacheCreationTokens"@ {
        creation
    } else if name == "cacheReadTokens"@ {
        read
    } else {
        total
    };
    assert forall|i: int| 0 <= i < items.len() implies number(#[trigger] items[i]) == value(
        rows[i],
    ) by {
        assert(tells_row(items[i]->Object_0, rows[i], include_agents));
        lemma_number_under(items[i], name, value(rows[i]));
    }
    lemma_sum_same(items, rows, number, value);
}

/// The sums of a report fit exactly when each of its five columns does.
pub proof fn sums_fit_where_every_column_does(rows: Seq<AllRow>)
    ensures
        sums_fit(rows) <==> {
            &&& sum_by(rows, |row: AllRow| row.input_tokens as nat) <= u64::MAX
            &&& sum_by(rows, |row: AllRow| row.output_tokens as nat) <= u64::MAX
            &&& sum_by(rows, |row: AllRow| row.cache_creation_tokens as nat) <= u64::MAX
            &&& sum_by(rows, |row: AllRow| row.cache_read_tokens as nat) <= u64::MAX
            &&& sum_by(rows, |row: AllRow| row.total_tokens as nat) <= u64::MAX
        },
{
    lemma_sums(rows);
}

} // verus!
