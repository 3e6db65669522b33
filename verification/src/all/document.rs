//! Unified reports as JSON documents.

use vstd::prelude::*;
use vstd::string::*;
use crate::all::labels::{rows_key, rows_key_text};
use crate::all::rows::{AgentReportKind, AllRow, ModelBreakdown};
use crate::cost::Cost;
use crate::json::{
    array, fields_model, items_model, object, put, text_array, texts_model, Json, JsonModel,
};
use crate::order::same_text;
use crate::tally::Counts;

verus! {

impl ModelBreakdown {
    /// A copy.
    pub fn copy(&self) -> (out: ModelBreakdown)
        ensures
            out == *self,
    {
        ModelBreakdown {
            model_name: self.model_name.clone(),
            input_tokens: self.input_tokens,
            output_tokens: self.output_tokens,
            cache_creation_tokens: self.cache_creation_tokens,
            cache_read_tokens: self.cache_read_tokens,
            extra_total_tokens: self.extra_total_tokens,
            cost: self.cost,
        }
    }
}

/// A copy of model breakdowns.
pub fn copy_breakdowns(models: &Vec<ModelBreakdown>) -> (out: Vec<ModelBreakdown>)
    ensures
        out@ == models@,
{
    let mut out: Vec<ModelBreakdown> = Vec::new();
    let mut i: usize = 0;
    while i < models.len()
        invariant
            i <= models@.len(),
            out@ =~= models@.take(i as int),
        decreases models@.len() - i,
    {
        out.push(models[i].copy());
        i = i + 1;
    }
    assert(models@.take(models@.len() as int) =~= models@);
    out
}

/// The fields that rows and agents of a report have in common.
pub open spec fn agent_fields(row: AllRow) -> Seq<(Seq<char>, JsonModel)> {
    seq![
        ("agent"@, JsonModel::Text(row.agent@)),
        ("modelsUsed"@, texts_model(row.models_used@)),
        ("inputTokens"@, JsonModel::Number(row.input_tokens as nat)),
        ("outputTokens"@, JsonModel::Number(row.output_tokens as nat)),
        ("cacheCreationTokens"@, JsonModel::Number(row.cache_creation_tokens as nat)),
        ("cacheReadTokens"@, JsonModel::Number(row.cache_read_tokens as nat)),
        ("totalTokens"@, JsonModel::Number(row.total_tokens as nat)),
        ("totalCost"@, JsonModel::Money(row.total_cost)),
        ("modelBreakdowns"@, JsonModel::Breakdowns(row.model_breakdowns@)),
    ]
}

/// The metadata field of a row: what the row carries, or else the agents of the row.
pub open spec fn metadata_fields(row: AllRow) -> Seq<(Seq<char>, JsonModel)> {
    match (row.metadata, row.metadata_agents) {
        (Some(metadata), _) => seq![("metadata"@, JsonModel::Written(metadata@))],
        (None, Some(agents)) => seq![
            ("metadata"@, JsonModel::Object(seq![("agents"@, texts_model(agents@))])),
        ],
        (None, None) => Seq::empty(),
    }
}

/// The field with the agents of a row, where they are wanted and the row has them.
pub open spec fn breakdown_fields(row: AllRow, include_agents: bool) -> Seq<(Seq<char>, JsonModel)> {
    match row.agent_breakdowns {
        Some(agents) => if include_agents {
            seq![
                (
                    "agents"@,
                    JsonModel::Array(
                        agents@.map_values(|agent: AllRow| JsonModel::Object(agent_fields(agent))),
                    ),
                ),
            ]
        } else {
            Seq::empty()
        },
        None => Seq::empty(),
    }
}

/// The fields of a row of a report.
pub open spec fn row_fields(row: AllRow, include_agents: bool) -> Seq<(Seq<char>, JsonModel)> {
    agent_fields(row).push(("period"@, JsonModel::Text(row.period@))) + metadata_fields(row)
        + breakdown_fields(row, include_agents)
}

fn agent_field_list(row: &AllRow) -> (fields: Vec<(String, Json)>)
    ensures
        fields_model(fields@) == agent_fields(*row),
{
    let mut fields: Vec<(String, Json)> = Vec::new();
    put(&mut fields, "agent", Json::Text(row.agent.clone()));
    put(&mut fields, "modelsUsed", text_array(&row.models_used));
    put(&mut fields, "inputTokens", Json::Number(row.input_tokens));
    put(&mut fields, "outputTokens", Json::Number(row.output_tokens));
    put(&mut fields, "cacheCreationTokens", Json::Number(row.cache_creation_tokens));
    put(&mut fields, "cacheReadTokens", Json::Number(row.cache_read_tokens));
    put(&mut fields, "totalTokens", Json::Number(row.total_tokens));
    put(&mut fields, "totalCost", Json::Money(row.total_cost));
    put(&mut fields, "modelBreakdowns", Json::Breakdowns(copy_breakdowns(&row.model_breakdowns)));
    assert(fields_model(fields@) =~= agent_fields(*row));
    fields
}

/// An agent of a report as a document.
pub fn agent_json(row: &AllRow) -> (out: Json)
    ensures
        out.model() == JsonModel::Object(agent_fields(*row)),
{
    object(agent_field_list(row))
}

/// A row of a report as a document.
pub fn row_json(row: &AllRow, include_agents: bool) -> (out: Json)
    ensures
        out.model() == JsonModel::Object(row_fields(*row, include_agents)),
{
    let mut fields = agent_field_list(row);
    put(&mut fields, "period", Json::Text(row.period.clone()));
    match (&row.metadata, &row.metadata_agents) {
        (Some(metadata), _) => {
            put(&mut fields, "metadata", Json::Written(metadata.clone()));
        },
        (None, Some(agents)) => {
            let mut inner: Vec<(String, Json)> = Vec::new();
            put(&mut inner, "agents", text_array(agents));
            assert(fields_model(inner@) =~= seq![("agents"@, texts_model(agents@))]);
            put(&mut fields, "metadata", object(inner));
        },
        (None, None) => {},
    }
    let ghost first = agent_fields(*row).push(("period"@, JsonModel::Text(row.period@)))
        + metadata_fields(*row);
    assert(fields_model(fields@) =~= first);
    match &row.agent_breakdowns {
        Some(agents) => {
            if include_agents {
                let mut items: Vec<Json> = Vec::new();
                let mut i: usize = 0;
                while i < agents.len()
                    invariant
                        i <= agents@.len(),
                        items_model(items@) =~= agents@.take(i as int).map_values(
                            |agent: AllRow| JsonModel::Object(agent_fields(agent)),
                        ),
                    decreases agents@.len() - i,
                {
                    let ghost before = items_model(items@);
                    let item = agent_json(&agents[i]);
                    items.push(item);
                    assert(items_model(items@) =~= before.push(item.model()));
                    i = i + 1;
                }
                assert(agents@.take(agents@.len() as int) =~= agents@);
                put(&mut fields, "agents", array(items));
            }
        },
        None => {},
    }
    assert(fields_model(fields@) =~= row_fields(*row, include_agents));
    object(fields)
}

/// The rows of a section as a document.
pub open spec fn rows_model(rows: Seq<AllRow>, include_agents: bool) -> JsonModel {
    JsonModel::Array(
        rows.map_values(|row: AllRow| JsonModel::Object(row_fields(row, include_agents))),
    )
}

fn rows_json(rows: &Vec<AllRow>, include_agents: bool) -> (out: Json)
    ensures
        out.model() == rows_model(rows@, include_agents),
{
    let mut items: Vec<Json> = Vec::new();
    let mut i: usize = 0;
    while i < rows.len()
        invariant
            i <= rows@.len(),
            items_model(items@) =~= rows@.take(i as int).map_values(
                |row: AllRow| JsonModel::Object(row_fields(row, include_agents)),
            ),
        decreases rows@.len() - i,
    {
        let ghost before = items_model(items@);
        let item = row_json(&rows[i], include_agents);
        items.push(item);
        assert(items_model(items@) =~= before.push(item.model()));
        i = i + 1;
    }
    assert(rows@.take(rows@.len() as int) =~= rows@);
    array(items)
}

/// The token counts of all rows together.
pub open spec fn rows_counts(rows: Seq<AllRow>) -> Counts
    decreases rows.len(),
{
    if rows.len() == 0 {
        Counts::none()
    } else {
        rows_counts(rows.drop_last()).plus(rows.last().counts())
    }
}

/// The total tokens of all rows together.
pub open spec fn rows_tokens(rows: Seq<AllRow>) -> nat
    decreases rows.len(),
{
    if rows.len() == 0 {
        0
    } else {
        rows_tokens(rows.drop_last()) + rows.last().total_tokens as nat
    }
}

/// The costs of rows in order.
pub open spec fn rows_costs(rows: Seq<AllRow>) -> Seq<Cost> {
    rows.map_values(|row: AllRow| row.total_cost)
}

/// The sums of all columns fit machine integers.
pub open spec fn sums_fit(rows: Seq<AllRow>) -> bool {
    rows_counts(rows).fit() && rows_tokens(rows) <= u64::MAX
}

/// The sums of the columns of a report.
#[derive(Debug)]
pub struct ReportTotals {
    pub input_tokens: u64,
    pub output_tokens: u64,
    pub cache_creation_tokens: u64,
    pub cache_read_tokens: u64,
    pub total_tokens: u64,
    pub costs: Vec<Cost>,
}

impl ReportTotals {
    /// These are the sums of the columns of the given rows.
    pub open spec fn are_of(self, rows: Seq<AllRow>) -> bool {
        &&& self.counts() == rows_counts(rows)
        &&& self.total_tokens == rows_tokens(rows)
        &&& self.costs@ == rows_costs(rows)
    }

    /// The four token counts.
    pub open spec fn counts(self) -> Counts {
        Counts {
            input: self.input_tokens as nat,
            output: self.output_tokens as nat,
            cache_creation: self.cache_creation_tokens as nat,
            cache_read: self.cache_read_tokens as nat,
        }
    }
}

proof fn lemma_sums_prefix(rows: Seq<AllRow>, n: int)
    requires
        0 <= n <= rows.len(),
        sums_fit(rows),
    ensures
        sums_fit(rows.take(n)),
    decreases rows.len() - n,
{
    if n < rows.len() {
        lemma_sums_prefix(rows, n + 1);
        assert(rows.take(n + 1).drop_last() =~= rows.take(n));
    } else {
        assert(rows.take(n) =~= rows);
    }
}

/// The sums of the columns of a report; `None` where one of them does not fit.
pub fn add_up(rows: &Vec<AllRow>) -> (out: Option<ReportTotals>)
    ensures
        match out {
            Some(totals) => sums_fit(rows@) && totals.are_of(rows@),
            None => !sums_fit(rows@),
        },
{
    let mut totals = ReportTotals {
        input_tokens: 0,
        output_tokens: 0,
        cache_creation_tokens: 0,
        cache_read_tokens: 0,
        total_tokens: 0,
        costs: Vec::new(),
    };
    let mut i: usize = 0;
    assert(rows@.take(0) =~= Seq::empty());
    assert(totals.costs@ =~= rows_costs(rows@.take(0)));
    while i < rows.len()
        invariant
            i <= rows@.len(),
            totals.are_of(rows@.take(i as int)),
        decreases rows@.len() - i,
    {
        let row = &rows[i];
        proof {
            assert(rows@.take(i + 1).drop_last() =~= rows@.take(i as int));
            assert(rows_costs(rows@.take(i + 1)) =~= rows_costs(rows@.take(i as int)).push(
                row.total_cost,
            ));
        }
        match (
            totals.input_tokens.checked_add(row.input_tokens),
            totals.output_tokens.checked_add(row.output_tokens),
            totals.cache_creation_tokens.checked_add(row.cache_creation_tokens),
            totals.cache_read_tokens.checked_add(row.cache_read_tokens),
            totals.total_tokens.checked_add(row.total_tokens),
        ) {
            (
                Some(input_tokens),
                Some(output_tokens),
                Some(cache_creation_tokens),
                Some(cache_read_tokens),
                Some(total_tokens),
            ) => {
                totals.input_tokens = input_tokens;
                totals.output_tokens = output_tokens;
                totals.cache_creation_tokens = cache_creation_tokens;
                totals.cache_read_tokens = cache_read_tokens;
                totals.total_tokens = total_tokens;
                totals.costs.push(row.total_cost);
            },
            _ => {
                proof {
                    if sums_fit(rows@) {
                        lemma_sums_prefix(rows@, i + 1);
                    }
                }
                return None;
            },
        }
        i = i + 1;
    }
    assert(rows@.take(rows@.len() as int) =~= rows@);
    Some(totals)
}

/// The totals of a report as a document.
pub open spec fn totals_fields(rows: Seq<AllRow>) -> Seq<(Seq<char>, JsonModel)> {
    let counts = rows_counts(rows);
    seq![
        ("inputTokens"@, JsonModel::Number(counts.input)),
        ("outputTokens"@, JsonModel::Number(counts.output)),
        ("cacheCreationTokens"@, JsonModel::Number(counts.cache_creation)),
        ("cacheReadTokens"@, JsonModel::Number(counts.cache_read)),
        ("totalTokens"@, JsonModel::Number(rows_tokens(rows))),
        ("totalCost"@, JsonModel::MoneySum(rows_costs(rows))),
    ]
}

/// The totals of a report as a document.
pub fn totals_json(rows: &Vec<AllRow>) -> (out: Json)
    requires
        sums_fit(rows@),
    ensures
        out.model() == JsonModel::Object(totals_fields(rows@)),
{
    let mut fields: Vec<(String, Json)> = Vec::new();
    if let Some(totals) = add_up(rows) {
        put(&mut fields, "inputTokens", Json::Number(totals.input_tokens));
        put(&mut fields, "outputTokens", Json::Number(totals.output_tokens));
        put(&mut fields, "cacheCreationTokens", Json::Number(totals.cache_creation_tokens));
        put(&mut fields, "cacheReadTokens", Json::Number(totals.cache_read_tokens));
        put(&mut fields, "totalTokens", Json::Number(totals.total_tokens));
        put(&mut fields, "totalCost", Json::MoneySum(totals.costs));
    }
    assert(fields_model(fields@) =~= totals_fields(rows@));
    object(fields)
}

/// A report of one section as a document.
pub fn report_json_with_agents(rows: &Vec<AllRow>, kind: AgentReportKind, include_agents: bool) -> (out:
    Json)
    requires
        sums_fit(rows@),
    ensures
        out.model() == JsonModel::Object(
            seq![
                (rows_key_text(kind)@, rows_model(rows@, include_agents)),
                ("totals"@, JsonModel::Object(totals_fields(rows@))),
            ],
        ),
{
    let mut fields: Vec<(String, Json)> = Vec::new();
    put(&mut fields, rows_key(kind), rows_json(rows, include_agents));
    put(&mut fields, "totals", totals_json(rows));
    assert(fields_model(fields@) =~= seq![
        (rows_key_text(kind)@, rows_model(rows@, include_agents)),
        ("totals"@, JsonModel::Object(totals_fields(rows@))),
    ]);
    object(fields)
}

/// A document whose fields keep their order.
#[derive(Debug)]
pub struct OrderedJsonMap {
    pub fields: Vec<(String, Json)>,
}

impl OrderedJsonMap {
    /// The place of the first field with the given name; the number of fields where there is
    /// none.
    pub open spec fn place(fields: Seq<(String, Json)>, key: Seq<char>) -> int
        decreases fields.len(),
    {
        if fields.len() == 0 || fields[0].0@ == key {
            0
        } else {
            1 + Self::place(fields.drop_first(), key)
        }
    }

    /// The value of the first field with the given name.
    pub fn get(&self, key: &str) -> (out: Option<&Json>)
        ensures
            match out {
                Some(value) => {
                    let at = Self::place(self.fields@, key@);
                    &&& 0 <= at < self.fields@.len()
                    &&& self.fields@[at].0@ == key@
                    &&& *value == self.fields@[at].1
                },
                None => forall|i: int|
                    0 <= i < self.fields@.len() ==> (#[trigger] self.fields@[i]).0@ != key@,
            },
    {
        let mut i: usize = 0;
        assert(self.fields@.skip(0) =~= self.fields@);
        while i < self.fields.len()
            invariant
                i <= self.fields@.len(),
                Self::place(self.fields@, key@) == i + Self::place(
                    self.fields@.skip(i as int),
                    key@,
                ),
                forall|j: int| 0 <= j < i ==> (#[trigger] self.fields@[j]).0@ != key@,
            decreases self.fields@.len() - i,
        {
            if same_text(self.fields[i].0.as_str(), key) {
                return Some(&self.fields[i].1);
            }
            assert(self.fields@.skip(i as int).drop_first() =~= self.fields@.skip(i + 1));
            i = i + 1;
        }
        None
    }
}

/// The rows of the first section of a kind; none where there is no such section.
pub open spec fn rows_of_kind(
    sections: Seq<(AgentReportKind, Vec<AllRow>)>,
    kind: AgentReportKind,
) -> Seq<AllRow>
    decreases sections.len(),
{
    if sections.len() == 0 {
        Seq::empty()
    } else if sections[0].0 == kind {
        sections[0].1@
    } else {
        rows_of_kind(sections.drop_first(), kind)
    }
}

/// The fields of a report of several sections: each section under its key, then the totals of
/// the section of the command.
pub open spec fn sections_fields(
    sections: Seq<(AgentReportKind, Vec<AllRow>)>,
    command_kind: AgentReportKind,
    include_agents: bool,
) -> Seq<(Seq<char>, JsonModel)> {
    sections.map_values(
        |section: (AgentReportKind, Vec<AllRow>)|
            (rows_key_text(section.0)@, rows_model(section.1@, include_agents)),
    ).push(
        ("totals"@, JsonModel::Object(totals_fields(rows_of_kind(sections, command_kind)))),
    )
}

fn place_of_kind(
    sections: &Vec<(AgentReportKind, Vec<AllRow>)>,
    kind: AgentReportKind,
) -> (at: usize)
    ensures
        at <= sections@.len(),
        rows_of_kind(sections@, kind) == (if at < sections@.len() {
            sections@[at as int].1@
        } else {
            Seq::empty()
        }),
{
    let mut i: usize = 0;
    assert(sections@.skip(0) =~= sections@);
    while i < sections.len() && sections[i].0 != kind
        invariant
            i <= sections@.len(),
            rows_of_kind(sections@, kind) == rows_of_kind(sections@.skip(i as int), kind),
        decreases sections@.len() - i,
    {
        assert(sections@.skip(i as int).drop_first() =~= sections@.skip(i + 1));
        i = i + 1;
    }
    i
}

/// A report of several sections as a document.
pub fn sections_report_json(
    sections: &Vec<(AgentReportKind, Vec<AllRow>)>,
    command_kind: AgentReportKind,
    include_agents: bool,
) -> (out: OrderedJsonMap)
    requires
        sums_fit(rows_of_kind(sections@, command_kind)),
    ensures
        fields_model(out.fields@) == sections_fields(sections@, command_kind, include_agents),
{
    let mut fields: Vec<(String, Json)> = Vec::new();
    let mut i: usize = 0;
    while i < sections.len()
        invariant
            i <= sections@.len(),
            fields_model(fields@) =~= sections@.take(i as int).map_values(
                |section: (AgentReportKind, Vec<AllRow>)|
                    (rows_key_text(section.0)@, rows_model(section.1@, include_agents)),
            ),
        decreases sections@.len() - i,
    {
        put(&mut fields, rows_key(sections[i].0), rows_json(&sections[i].1, include_agents));
        i = i + 1;
    }
    assert(sections@.take(sections@.len() as int) =~= sections@);
    let at: usize = place_of_kind(sections, command_kind);
    if at < sections.len() {
        put(&mut fields, "totals", totals_json(&sections[at].1));
    } else {
        let none: Vec<AllRow> = Vec::new();
        assert(none@ =~= Seq::<AllRow>::empty());
        put(&mut fields, "totals", totals_json(&none));
    }
    assert(fields_model(fields@) =~= sections_fields(sections@, command_kind, include_agents));
    OrderedJsonMap { fields }
}

} // verus!
