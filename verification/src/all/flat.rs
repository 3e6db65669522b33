//! What flat rows hold of the rows they come from, and the order of rows, sections and forms.

use vstd::prelude::*;
use crate::all::plan::{output_of, Request};
use crate::all::rows::{
    agent_sync_rows, extra_sections, is_sorted_report, model_sync_rows, section_order, sync_rows,
    AgentReportKind, AllRow, ModelBreakdown, SortOrder, SyncUsageRow,
};
use crate::order::{key_le, lemma_text_order, text_le};
use crate::sort::Ranked;

verus! {

/// A model that an agent used on a date.
pub struct ModelUse {
    pub date: Seq<char>,
    pub agent: Seq<char>,
    pub model: ModelBreakdown,
}

/// The models that an agent used on a date.
pub open spec fn uses_of_agent(
    date: Seq<char>,
    agent: Seq<char>,
    models: Seq<ModelBreakdown>,
) -> Seq<ModelUse> {
    models.map_values(|model: ModelBreakdown| ModelUse { date, agent, model })
}

/// The models that agents used on a date, agent by agent.
pub open spec fn uses_of_agents(date: Seq<char>, agents: Seq<AllRow>) -> Seq<ModelUse>
    decreases agents.len(),
{
    if agents.len() == 0 {
        Seq::empty()
    } else {
        uses_of_agents(date, agents.drop_last()) + uses_of_agent(
            date,
            agents.last().agent@,
            agents.last().model_breakdowns@,
        )
    }
}

/// The models that the agents of rows used, row by row.
pub open spec fn uses_of(rows: Seq<AllRow>) -> Seq<ModelUse>
    decreases rows.len(),
{
    if rows.len() == 0 {
        Seq::empty()
    } else if rows.last().agent_breakdowns is Some {
        uses_of(rows.drop_last()) + uses_of_agents(
            rows.last().period@,
            rows.last().agent_breakdowns->Some_0@,
        )
    } else {
        uses_of(rows.drop_last())
    }
}

/// The model has tokens of some kind.
pub open spec fn has_tokens(used: ModelUse) -> bool {
    ||| used.model.input_tokens > 0
    ||| used.model.output_tokens > 0
    ||| used.model.cache_creation_tokens > 0
    ||| used.model.cache_read_tokens > 0
    ||| used.model.extra_total_tokens > 0
}

/// The uses with tokens.
pub open spec fn with_tokens(uses: Seq<ModelUse>) -> Seq<ModelUse> {
    uses.filter(|used: ModelUse| has_tokens(used))
}

/// The flat row holds what the agent used of the model on the date.
pub open spec fn is_of_use(row: SyncUsageRow, used: ModelUse) -> bool {
    &&& row.date@ == used.date
    &&& row.agent@ == used.agent
    &&& row.model@ == used.model.model_name@
    &&& row.input_tokens == used.model.input_tokens
    &&& row.output_tokens == used.model.output_tokens
    &&& row.cache_creation_tokens == used.model.cache_creation_tokens
    &&& row.cache_read_tokens == used.model.cache_read_tokens
    &&& row.cost == used.model.cost
}

/// There is one flat row for each use, in order.
pub open spec fn are_of_uses(flat: Seq<SyncUsageRow>, uses: Seq<ModelUse>) -> bool {
    &&& flat.len() == uses.len()
    &&& forall|i: int| 0 <= i < flat.len() ==> is_of_use(#[trigger] flat[i], uses[i])
}

proof fn lemma_with_tokens_add(a: Seq<ModelUse>, b: Seq<ModelUse>)
    ensures
        with_tokens(a + b) == with_tokens(a) + with_tokens(b),
{
    Seq::filter_distributes_over_add(a, b, |used: ModelUse| has_tokens(used));
}

proof fn lemma_none_with_tokens()
    ensures
        with_tokens(Seq::empty()) == Seq::<ModelUse>::empty(),
{
    let none = Seq::<ModelUse>::empty();
    none.lemma_filter_len(|used: ModelUse| has_tokens(used));
    assert(with_tokens(none) =~= none);
}

proof fn lemma_models_flat(date: String, agent: String, models: Seq<ModelBreakdown>)
    ensures
        are_of_uses(
            model_sync_rows(date, agent, models),
            with_tokens(uses_of_agent(date@, agent@, models)),
        ),
    decreases models.len(),
{
    let uses = uses_of_agent(date@, agent@, models);
    if models.len() == 0 {
        assert(uses =~= Seq::empty());
        lemma_none_with_tokens();
    } else {
        let rest = models.drop_last();
        let before = uses_of_agent(date@, agent@, rest);
        let last = ModelUse { date: date@, agent: agent@, model: models.last() };
        lemma_models_flat(date, agent, rest);
        assert(uses =~= before.push(last));
        before.lemma_filter_push(last, |used: ModelUse| has_tokens(used));
    }
}

proof fn lemma_agents_flat(date: String, agents: Seq<AllRow>)
    ensures
        are_of_uses(agent_sync_rows(date, agents), with_tokens(uses_of_agents(date@, agents))),
    decreases agents.len(),
{
    if agents.len() == 0 {
        lemma_none_with_tokens();
    } else {
        let last = agents.last();
        let own = uses_of_agent(date@, last.agent@, last.model_breakdowns@);
        lemma_agents_flat(date, agents.drop_last());
        lemma_models_flat(date, last.agent, last.model_breakdowns@);
        lemma_with_tokens_add(uses_of_agents(date@, agents.drop_last()), own);
    }
}

/// Flattening keeps every use: there is one flat row for each model with tokens of each agent of
/// each row, in order, with the date of the row, the agent, the model, its counts and its cost.
pub proof fn flat_rows_hold_every_use(rows: Seq<AllRow>, flat: Seq<SyncUsageRow>)
    requires
        flat == sync_rows(rows),
    ensures
        are_of_uses(flat, with_tokens(uses_of(rows))),
    decreases rows.len(),
{
    if rows.len() == 0 {
        lemma_none_with_tokens();
    } else {
        let rest = rows.drop_last();
        let last = rows.last();
        flat_rows_hold_every_use(rest, sync_rows(rest));
        if let Some(agents) = last.agent_breakdowns {
            lemma_agents_flat(last.period, agents@);
            lemma_with_tokens_add(uses_of(rest), uses_of_agents(last.period@, agents@));
        } else {
            assert(flat =~= sync_rows(rest));
        }
    }
}

/// Sorting keeps every row, and brings the rows into the order of their periods, and of their
/// agents where the periods are the same, forwards or backwards.
pub proof fn sorted_reports_ascend_or_descend(
    input: Seq<AllRow>,
    output: Seq<AllRow>,
    order: SortOrder,
    i: int,
    j: int,
)
    requires
        is_sorted_report(input, output, order),
        0 <= i < j < output.len(),
    ensures
        output.to_multiset() == input.to_multiset(),
        order == SortOrder::Asc ==> {
            &&& text_le(output[i].period@, output[j].period@)
            &&& output[i].period@ == output[j].period@ ==> text_le(
                output[i].agent@,
                output[j].agent@,
            )
        },
        order == SortOrder::Desc ==> {
            &&& text_le(output[j].period@, output[i].period@)
            &&& output[i].period@ == output[j].period@ ==> text_le(
                output[j].agent@,
                output[i].agent@,
            )
        },
{
    lemma_ranks(output[i], output[j]);
    lemma_ranks(output[j], output[i]);
    match order {
        SortOrder::Asc => {
            assert(output[i].precedes(&output[j]));
        },
        SortOrder::Desc => {
            let turned = output.reverse();
            let n = output.len() - 1;
            assert(turned[n - j] == output[j] && turned[n - i] == output[i]);
            assert(turned[n - j].precedes(&turned[n - i]));
            output.lemma_reverse_to_multiset();
        },
    }
}

proof fn lemma_ranks(a: AllRow, b: AllRow)
    ensures
        a.precedes(&b) ==> text_le(a.period@, b.period@) && (a.period@ == b.period@ ==> text_le(
            a.agent@,
            b.agent@,
        )),
{
    reveal_with_fuel(key_le, 3);
    lemma_text_order(a.period@, b.period@);
    lemma_text_order(a.agent@, b.agent@);
    assert(a.rank().drop_first() =~= seq![a.agent@]);
    assert(b.rank().drop_first() =~= seq![b.agent@]);
}

/// How fine a report groups usage, from days to sessions.
pub open spec fn coarseness(kind: AgentReportKind) -> int {
    match kind {
        AgentReportKind::Daily => 0,
        AgentReportKind::Weekly => 1,
        AgentReportKind::Monthly => 2,
        AgentReportKind::Session => 3,
    }
}

/// The sections behind that of the command go from days over weeks and months to sessions.
pub proof fn extra_sections_stand_in_order(
    command_kind: AgentReportKind,
    sections: Seq<AgentReportKind>,
    i: int,
    j: int,
)
    requires
        0 <= i < j < extra_sections(command_kind, sections, 4).len(),
    ensures
        coarseness(extra_sections(command_kind, sections, 4)[i]) < coarseness(
            extra_sections(command_kind, sections, 4)[j],
        ),
{
    let order = section_order();
    assert(order.take(4) =~= order);
    reveal_with_fuel(Seq::filter, 5);
    assert(order.drop_last().drop_last().drop_last().drop_last() =~= Seq::empty());
}

/// A report is a document exactly when a document was asked for, has sections exactly when they
/// were asked for, and is the summary exactly for a daily report on a terminal without breakdowns.
pub proof fn reports_take_the_form_asked_for(request: Request)
    ensures
        ({
            let form = output_of(request);
            &&& form is Document || form is SectionsDocument <==> request.json
            &&& form is SectionTables || form is SectionsDocument <==> request.sections
            &&& form is Summary <==> request.terminal && !request.json && !request.sections
                && !request.breakdown && request.kind is Daily
        }),
{
}

} // verus!
