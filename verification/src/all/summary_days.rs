//! The days of the summary view, out of the rows of a report.

use vstd::prelude::*;
use vstd::string::*;
use crate::all::labels::{strip_store_prefix, without_store};
use crate::all::period::{humanize_period, period_label};
use crate::all::rows::{AllRow, ModelBreakdown};
use crate::all::summary::{SummaryAgent, SummaryDay, SummaryModel};
use crate::cost::Cost;

verus! {

/// A day of the summary by its texts.
pub struct DayModel {
    pub label: Seq<char>,
    pub total_cost: Cost,
    pub agents: Seq<AgentModel>,
}

/// An agent of the summary by its texts.
pub struct AgentModel {
    pub name: Seq<char>,
    pub total_cost: Cost,
    pub models: Seq<ModelModel>,
}

/// A model of the summary by its texts.
pub struct ModelModel {
    pub name: Seq<char>,
    pub input: u64,
    pub output: u64,
    pub cache_read: u64,
    pub cache_write: u64,
    pub cost: Cost,
}

impl SummaryModel<Cost> {
    /// The model by its texts.
    pub open spec fn model(self) -> ModelModel {
        ModelModel {
            name: self.name@,
            input: self.input,
            output: self.output,
            cache_read: self.cache_read,
            cache_write: self.cache_write,
            cost: self.cost,
        }
    }
}

/// Models by their texts.
pub open spec fn model_models(models: Seq<SummaryModel<Cost>>) -> Seq<ModelModel> {
    models.map_values(|m: SummaryModel<Cost>| m.model())
}

impl SummaryAgent<Cost> {
    /// The agent by its texts.
    pub open spec fn model(self) -> AgentModel {
        AgentModel {
            name: self.name@,
            total_cost: self.total_cost,
            models: model_models(self.models@),
        }
    }
}

/// Agents by their texts.
pub open spec fn agent_models(agents: Seq<SummaryAgent<Cost>>) -> Seq<AgentModel> {
    agents.map_values(|a: SummaryAgent<Cost>| a.model())
}

impl SummaryDay<Cost> {
    /// The day by its texts.
    pub open spec fn model(self) -> DayModel {
        DayModel {
            label: self.label@,
            total_cost: self.total_cost,
            agents: agent_models(self.agents@),
        }
    }
}

/// Days by their texts.
pub open spec fn day_models(days: Seq<SummaryDay<Cost>>) -> Seq<DayModel> {
    days.map_values(|d: SummaryDay<Cost>| d.model())
}

/// The per-agent rows of a row.
pub open spec fn breakdowns_of(row: AllRow) -> Seq<AllRow> {
    match row.agent_breakdowns {
        Some(agents) => agents@,
        None => Seq::empty(),
    }
}

/// The models with tokens, as the summary shows them. The name is the model's own, without the
/// prefix of its store.
pub open spec fn shown_models(models: Seq<ModelBreakdown>) -> Seq<ModelModel>
    decreases models.len(),
{
    if models.len() == 0 {
        Seq::empty()
    } else {
        let m = models.last();
        let before = shown_models(models.drop_last());
        if m.counts().sum() > 0 {
            before.push(
                ModelModel {
                    name: without_store(m.model_name@),
                    input: m.input_tokens,
                    output: m.output_tokens,
                    cache_read: m.cache_read_tokens,
                    cache_write: m.cache_creation_tokens,
                    cost: m.cost,
                },
            )
        } else {
            before
        }
    }
}

/// The agents with a cost or a model, as the summary shows them.
pub open spec fn shown_agents(agents: Seq<AllRow>) -> Seq<AgentModel>
    decreases agents.len(),
{
    if agents.len() == 0 {
        Seq::empty()
    } else {
        let a = agents.last();
        let before = shown_agents(agents.drop_last());
        if !a.total_cost.zero() || a.models_used@.len() > 0 {
            before.push(
                AgentModel {
                    name: without_store(a.agent@),
                    total_cost: a.total_cost,
                    models: shown_models(a.model_breakdowns@),
                },
            )
        } else {
            before
        }
    }
}

/// The days of a report, as the summary shows them.
pub open spec fn shown_days(rows: Seq<AllRow>) -> Seq<DayModel> {
    rows.map_values(
        |row: AllRow|
            DayModel {
                label: period_label(row.period@),
                total_cost: row.total_cost,
                agents: shown_agents(breakdowns_of(row)),
            },
    )
}

/// The models with tokens, as the summary shows them.
pub fn visible_models(agent: &AllRow) -> (out: Vec<SummaryModel<Cost>>)
    ensures
        model_models(out@) == shown_models(agent.model_breakdowns@),
{
    let models = &agent.model_breakdowns;
    let mut out: Vec<SummaryModel<Cost>> = Vec::new();
    let mut i: usize = 0;
    assert(models@.take(0) =~= Seq::empty());
    assert(model_models(out@) =~= Seq::empty());
    while i < models.len()
        invariant
            i <= models@.len(),
            model_models(out@) == shown_models(models@.take(i as int)),
        decreases models@.len() - i,
    {
        let m = &models[i];
        assert(models@.take(i + 1).drop_last() =~= models@.take(i as int));
        if m.input_tokens > 0 || m.output_tokens > 0 || m.cache_read_tokens > 0
            || m.cache_creation_tokens > 0 {
            let ghost before = model_models(out@);
            let shown = SummaryModel {
                name: strip_store_prefix(m.model_name.as_str()),
                input: m.input_tokens,
                output: m.output_tokens,
                cache_read: m.cache_read_tokens,
                cache_write: m.cache_creation_tokens,
                cost: m.cost,
            };
            out.push(shown);
            assert(model_models(out@) =~= before.push(shown.model()));
        }
        i = i + 1;
    }
    assert(models@.take(models@.len() as int) =~= models@);
    out
}

fn agents_shown(row: &AllRow) -> (out: Vec<SummaryAgent<Cost>>)
    ensures
        agent_models(out@) == shown_agents(breakdowns_of(*row)),
{
    let mut out: Vec<SummaryAgent<Cost>> = Vec::new();
    assert(agent_models(out@) =~= Seq::empty());
    if let Some(agents) = &row.agent_breakdowns {
        let mut i: usize = 0;
        assert(agents@.take(0) =~= Seq::empty());
        while i < agents.len()
            invariant
                i <= agents@.len(),
                agent_models(out@) == shown_agents(agents@.take(i as int)),
            decreases agents@.len() - i,
        {
            let agent = &agents[i];
            assert(agents@.take(i + 1).drop_last() =~= agents@.take(i as int));
            if !agent.total_cost.is_zero() || agent.models_used.len() > 0 {
                let ghost before = agent_models(out@);
                let shown = SummaryAgent {
                    name: strip_store_prefix(agent.agent.as_str()),
                    total_cost: agent.total_cost,
                    models: visible_models(agent),
                };
                out.push(shown);
                assert(agent_models(out@) =~= before.push(shown.model()));
            }
            i = i + 1;
        }
        assert(agents@.take(agents@.len() as int) =~= agents@);
    }
    out
}

/// The days of a report, as the summary shows them.
pub fn summary_days(rows: &Vec<AllRow>) -> (out: Vec<SummaryDay<Cost>>)
    ensures
        day_models(out@) == shown_days(rows@),
{
    let mut out: Vec<SummaryDay<Cost>> = Vec::new();
    let mut i: usize = 0;
    while i < rows.len()
        invariant
            i <= rows@.len(),
            day_models(out@) =~= shown_days(rows@).take(i as int),
        decreases rows@.len() - i,
    {
        let row = &rows[i];
        let ghost before = day_models(out@);
        let day = SummaryDay {
            label: humanize_period(row.period.as_str()),
            total_cost: row.total_cost,
            agents: agents_shown(row),
        };
        out.push(day);
        assert(day_models(out@) =~= before.push(day.model()));
        i = i + 1;
    }
    out
}

/// The days to show; a report without rows shows none, only a message.
pub fn days_to_show(rows: &Vec<AllRow>) -> (out: Option<Vec<SummaryDay<Cost>>>)
    ensures
        match out {
            Some(days) => rows@.len() > 0 && day_models(days@) == shown_days(rows@),
            None => rows@.len() == 0,
        },
{
    if rows.len() == 0 {
        None
    } else {
        Some(summary_days(rows))
    }
}

} // verus!
