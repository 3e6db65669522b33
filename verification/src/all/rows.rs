//! The rows of the unified reports, and the flat rows that the sync feature stores.

use vstd::prelude::*;
use crate::cost::Cost;
use crate::order::{key_le, lemma_key_order, lemma_key_transitive, same_text, text_at_or_before};
use crate::sort::{is_stable_sort, reversed, stable_sort, Ranked};
use crate::tally::{CellTotals, Counts};

verus! {

/// What a report groups usage by.
#[derive(Debug, Clone, Copy, PartialEq, Eq, Structural)]
pub enum AgentReportKind {
    Daily,
    Weekly,
    Monthly,
    Session,
}

/// The direction in which report rows are sorted.
#[derive(Debug, Clone, Copy, PartialEq, Eq, Structural)]
pub enum SortOrder {
    Desc,
    Asc,
}

/// Usage of one model within a row.
#[derive(Debug)]
pub struct ModelBreakdown {
    pub model_name: String,
    pub input_tokens: u64,
    pub output_tokens: u64,
    pub cache_creation_tokens: u64,
    pub cache_read_tokens: u64,
    pub extra_total_tokens: u64,
    pub cost: Cost,
}

/// One row of a unified report. A row that stands for several agents has one row per agent in
/// `agent_breakdowns`. `metadata` is JSON text.
#[derive(Debug)]
pub struct AllRow {
    pub period: String,
    pub agent: String,
    pub models_used: Vec<String>,
    pub input_tokens: u64,
    pub output_tokens: u64,
    pub cache_creation_tokens: u64,
    pub cache_read_tokens: u64,
    pub total_tokens: u64,
    pub total_cost: Cost,
    pub metadata_agents: Option<Vec<String>>,
    pub metadata: Option<String>,
    pub model_breakdowns: Vec<ModelBreakdown>,
    pub agent_breakdowns: Option<Vec<AllRow>>,
}

/// One flattened daily usage cell: a single date, agent and model with its token and cost
/// totals. The sync feature aggregates every loaded source into these rows, so that the
/// snapshots of a machine stay small and mergeable.
#[derive(Debug, Clone, PartialEq)]
pub struct SyncUsageRow {
    pub date: String,
    pub agent: String,
    pub model: String,
    pub input_tokens: u64,
    pub output_tokens: u64,
    pub cache_creation_tokens: u64,
    pub cache_read_tokens: u64,
    pub cost: Cost,
}

impl ModelBreakdown {
    /// The four token counts.
    pub open spec fn counts(self) -> Counts {
        Counts {
            input: self.input_tokens as nat,
            output: self.output_tokens as nat,
            cache_creation: self.cache_creation_tokens as nat,
            cache_read: self.cache_read_tokens as nat,
        }
    }

    /// The model has tokens of some kind.
    pub open spec fn has_usage(self) -> bool {
        self.counts().sum() + self.extra_total_tokens > 0
    }
}

impl AllRow {
    /// The four token counts.
    pub open spec fn counts(self) -> Counts {
        Counts {
            input: self.input_tokens as nat,
            output: self.output_tokens as nat,
            cache_creation: self.cache_creation_tokens as nat,
            cache_read: self.cache_read_tokens as nat,
        }
    }

    /// What rows are sorted by: the period, then the agent.
    pub open spec fn rank(self) -> Seq<Seq<char>> {
        seq![self.period@, self.agent@]
    }
}

impl SyncUsageRow {
    /// The four token counts.
    pub open spec fn counts(self) -> Counts {
        Counts {
            input: self.input_tokens as nat,
            output: self.output_tokens as nat,
            cache_creation: self.cache_creation_tokens as nat,
            cache_read: self.cache_read_tokens as nat,
        }
    }

    /// The totals of the row as a cell.
    pub fn cell(&self) -> (out: CellTotals<Cost>)
        ensures
            out.counts() == self.counts(),
            out.input_tokens == self.input_tokens,
            out.output_tokens == self.output_tokens,
            out.cache_creation_tokens == self.cache_creation_tokens,
            out.cache_read_tokens == self.cache_read_tokens,
            out.cost == self.cost,
    {
        CellTotals {
            input_tokens: self.input_tokens,
            output_tokens: self.output_tokens,
            cache_creation_tokens: self.cache_creation_tokens,
            cache_read_tokens: self.cache_read_tokens,
            cost: self.cost,
        }
    }
}

/// The flat row of one model of one agent in a daily row.
pub open spec fn sync_row(date: String, agent: String, model: ModelBreakdown) -> SyncUsageRow {
    SyncUsageRow {
        date,
        agent,
        model: model.model_name,
        input_tokens: model.input_tokens,
        output_tokens: model.output_tokens,
        cache_creation_tokens: model.cache_creation_tokens,
        cache_read_tokens: model.cache_read_tokens,
        cost: model.cost,
    }
}

/// The flat rows of the models of one agent: one for each model with usage.
pub open spec fn model_sync_rows(
    date: String,
    agent: String,
    models: Seq<ModelBreakdown>,
) -> Seq<SyncUsageRow>
    decreases models.len(),
{
    if models.len() == 0 {
        Seq::empty()
    } else {
        let earlier = model_sync_rows(date, agent, models.drop_last());
        if models.last().has_usage() {
            earlier.push(sync_row(date, agent, models.last()))
        } else {
            earlier
        }
    }
}

/// The flat rows of the agents of one daily row.
pub open spec fn agent_sync_rows(date: String, agents: Seq<AllRow>) -> Seq<SyncUsageRow>
    decreases agents.len(),
{
    if agents.len() == 0 {
        Seq::empty()
    } else {
        agent_sync_rows(date, agents.drop_last()) + model_sync_rows(
            date,
            agents.last().agent,
            agents.last().model_breakdowns@,
        )
    }
}

/// The flat rows of daily rows. A row without agent breakdowns has none.
pub open spec fn sync_rows(rows: Seq<AllRow>) -> Seq<SyncUsageRow>
    decreases rows.len(),
{
    if rows.len() == 0 {
        Seq::empty()
    } else {
        sync_rows(rows.drop_last()) + match rows.last().agent_breakdowns {
            Some(agents) => agent_sync_rows(rows.last().period, agents@),
            None => Seq::empty(),
        }
    }
}

fn push_model_rows(
    out: &mut Vec<SyncUsageRow>,
    date: &String,
    agent: &String,
    models: &Vec<ModelBreakdown>,
)
    ensures
        final(out)@ == old(out)@ + model_sync_rows(*date, *agent, models@),
{
    let mut i: usize = 0;
    let ghost start = out@;
    assert(models@.take(0) =~= Seq::empty());
    assert(out@ =~= start + model_sync_rows(*date, *agent, models@.take(0)));
    while i < models.len()
        invariant
            i <= models@.len(),
            out@ == start + model_sync_rows(*date, *agent, models@.take(i as int)),
        decreases models@.len() - i,
    {
        assert(models@.take(i + 1).drop_last() =~= models@.take(i as int));
        let model = &models[i];
        if model.input_tokens != 0 || model.output_tokens != 0 || model.cache_creation_tokens != 0
            || model.cache_read_tokens != 0 || model.extra_total_tokens != 0 {
            let ghost before = out@;
            out.push(
                SyncUsageRow {
                    date: date.clone(),
                    agent: agent.clone(),
                    model: model.model_name.clone(),
                    input_tokens: model.input_tokens,
                    output_tokens: model.output_tokens,
                    cache_creation_tokens: model.cache_creation_tokens,
                    cache_read_tokens: model.cache_read_tokens,
                    cost: model.cost,
                },
            );
            assert(out@ =~= start + model_sync_rows(*date, *agent, models@.take(i + 1)));
        }
        i = i + 1;
    }
    assert(models@.take(models@.len() as int) =~= models@);
}

/// Flattens the rows of a daily report into rows per date, agent and model. Models without
/// tokens are left out.
pub fn collect_sync_rows(rows: &Vec<AllRow>) -> (out: Vec<SyncUsageRow>)
    ensures
        out@ == sync_rows(rows@),
{
    let mut out: Vec<SyncUsageRow> = Vec::new();
    let mut i: usize = 0;
    assert(rows@.take(0) =~= Seq::empty());
    while i < rows.len()
        invariant
            i <= rows@.len(),
            out@ == sync_rows(rows@.take(i as int)),
        decreases rows@.len() - i,
    {
        assert(rows@.take(i + 1).drop_last() =~= rows@.take(i as int));
        let row = &rows[i];
        let ghost start = out@;
        match &row.agent_breakdowns {
            Some(agents) => {
                let mut j: usize = 0;
                assert(agents@.take(0) =~= Seq::empty());
                assert(out@ =~= start + agent_sync_rows(row.period, agents@.take(0)));
                while j < agents.len()
                    invariant
                        j <= agents@.len(),
                        out@ == start + agent_sync_rows(row.period, agents@.take(j as int)),
                    decreases agents@.len() - j,
                {
                    assert(agents@.take(j + 1).drop_last() =~= agents@.take(j as int));
                    let agent = &agents[j];
                    push_model_rows(&mut out, &row.period, &agent.agent, &agent.model_breakdowns);
                    assert(out@ =~= start + agent_sync_rows(row.period, agents@.take(j + 1)));
                    j = j + 1;
                }
                assert(agents@.take(agents@.len() as int) =~= agents@);
            },
            None => {
                assert(start + Seq::<SyncUsageRow>::empty() =~= start);
            },
        }
        i = i + 1;
    }
    assert(rows@.take(rows@.len() as int) =~= rows@);
    out
}

/// The token counts of flat rows together.
pub open spec fn sync_total(rows: Seq<SyncUsageRow>) -> Counts
    decreases rows.len(),
{
    if rows.len() == 0 {
        Counts::none()
    } else {
        sync_total(rows.drop_last()).plus(rows.last().counts())
    }
}

/// The token counts of models together.
pub open spec fn models_total(models: Seq<ModelBreakdown>) -> Counts
    decreases models.len(),
{
    if models.len() == 0 {
        Counts::none()
    } else {
        models_total(models.drop_last()).plus(models.last().counts())
    }
}

/// The token counts of the models of agents together.
pub open spec fn agents_total(agents: Seq<AllRow>) -> Counts
    decreases agents.len(),
{
    if agents.len() == 0 {
        Counts::none()
    } else {
        agents_total(agents.drop_last()).plus(models_total(agents.last().model_breakdowns@))
    }
}

/// The token counts of all models in the agent breakdowns of rows together.
pub open spec fn breakdowns_total(rows: Seq<AllRow>) -> Counts
    decreases rows.len(),
{
    if rows.len() == 0 {
        Counts::none()
    } else {
        breakdowns_total(rows.drop_last()).plus(
            match rows.last().agent_breakdowns {
                Some(agents) => agents_total(agents@),
                None => Counts::none(),
            },
        )
    }
}

proof fn lemma_sync_total_add(a: Seq<SyncUsageRow>, b: Seq<SyncUsageRow>)
    ensures
        sync_total(a + b) == sync_total(a).plus(sync_total(b)),
    decreases b.len(),
{
    if b.len() == 0 {
        assert(a + b =~= a);
    } else {
        lemma_sync_total_add(a, b.drop_last());
        assert((a + b).drop_last() =~= a + b.drop_last());
    }
}

proof fn lemma_model_rows_total(date: String, agent: String, models: Seq<ModelBreakdown>)
    ensures
        sync_total(model_sync_rows(date, agent, models)) == models_total(models),
    decreases models.len(),
{
    if models.len() > 0 {
        let earlier = model_sync_rows(date, agent, models.drop_last());
        lemma_model_rows_total(date, agent, models.drop_last());
        assert(earlier.push(sync_row(date, agent, models.last())).drop_last() =~= earlier);
    }
}

proof fn lemma_agent_rows_total(date: String, agents: Seq<AllRow>)
    ensures
        sync_total(agent_sync_rows(date, agents)) == agents_total(agents),
    decreases agents.len(),
{
    if agents.len() > 0 {
        let last = agents.last();
        lemma_agent_rows_total(date, agents.drop_last());
        lemma_model_rows_total(date, last.agent, last.model_breakdowns@);
        lemma_sync_total_add(
            agent_sync_rows(date, agents.drop_last()),
            model_sync_rows(date, last.agent, last.model_breakdowns@),
        );
    }
}

/// Flattening loses and invents no tokens: the flat rows add up to the models of the agent
/// breakdowns.
pub proof fn flattening_keeps_every_token(rows: Seq<AllRow>)
    ensures
        sync_total(sync_rows(rows)) == breakdowns_total(rows),
    decreases rows.len(),
{
    if rows.len() > 0 {
        flattening_keeps_every_token(rows.drop_last());
        let more = match rows.last().agent_breakdowns {
            Some(agents) => agent_sync_rows(rows.last().period, agents@),
            None => Seq::empty(),
        };
        if let Some(agents) = rows.last().agent_breakdowns {
            lemma_agent_rows_total(rows.last().period, agents@);
        }
        lemma_sync_total_add(sync_rows(rows.drop_last()), more);
    }
}

/// The kinds in the order in which sections are shown.
pub open spec fn section_order() -> Seq<AgentReportKind> {
    seq![
        AgentReportKind::Daily,
        AgentReportKind::Weekly,
        AgentReportKind::Monthly,
        AgentReportKind::Session,
    ]
}

/// The kind was asked for and is not the command's own.
pub open spec fn is_extra(
    command_kind: AgentReportKind,
    sections: Seq<AgentReportKind>,
    kind: AgentReportKind,
) -> bool {
    kind != command_kind && sections.contains(kind)
}

/// The requested kinds other than the command's own among the first `n` in display order.
pub open spec fn extra_sections(
    command_kind: AgentReportKind,
    sections: Seq<AgentReportKind>,
    n: nat,
) -> Seq<AgentReportKind> {
    section_order().take(n as int).filter(
        |kind: AgentReportKind| is_extra(command_kind, sections, kind),
    )
}

proof fn lemma_extra_sections(
    command_kind: AgentReportKind,
    sections: Seq<AgentReportKind>,
    n: nat,
)
    requires
        n < 4,
    ensures
        extra_sections(command_kind, sections, n + 1) == (if section_order()[n as int]
            != command_kind && sections.contains(section_order()[n as int]) {
            extra_sections(command_kind, sections, n).push(section_order()[n as int])
        } else {
            extra_sections(command_kind, sections, n)
        }),
{
    let kind = section_order()[n as int];
    assert(section_order().take(n as int + 1) =~= section_order().take(n as int).push(kind));
    section_order().take(n as int).lemma_filter_push(
        kind,
        |kind: AgentReportKind| is_extra(command_kind, sections, kind),
    );
}

fn asks_for(sections: &Vec<AgentReportKind>, kind: AgentReportKind) -> (r: bool)
    ensures
        r == sections@.contains(kind),
{
    let mut i: usize = 0;
    while i < sections.len()
        invariant
            i <= sections@.len(),
            forall|j: int| 0 <= j < i ==> sections@[j] != kind,
        decreases sections@.len() - i,
    {
        if sections[i] == kind {
            assert(sections@[i as int] == kind);
            return true;
        }
        i = i + 1;
    }
    false
}

/// The sections of a report: that of the command first, then the others that were asked for in
/// display order.
pub fn requested_sections(command_kind: AgentReportKind, sections: Vec<AgentReportKind>) -> (out: Vec<
    AgentReportKind,
>)
    ensures
        out@ == seq![command_kind] + extra_sections(command_kind, sections@, 4),
{
    let order = vec![
        AgentReportKind::Daily,
        AgentReportKind::Weekly,
        AgentReportKind::Monthly,
        AgentReportKind::Session,
    ];
    assert(order@ =~= section_order());
    let mut out = vec![command_kind];
    let mut i: usize = 0;
    proof {
        reveal(Seq::filter);
        assert(out@ =~= seq![command_kind] + extra_sections(command_kind, sections@, 0));
    }
    while i < 4
        invariant
            i <= 4,
            order@ == section_order(),
            out@ == seq![command_kind] + extra_sections(command_kind, sections@, i as nat),
        decreases 4 - i,
    {
        let kind = order[i];
        proof {
            lemma_extra_sections(command_kind, sections@, i as nat);
        }
        if kind != command_kind && asks_for(&sections, kind) {
            out.push(kind);
        }
        assert(out@ =~= seq![command_kind] + extra_sections(command_kind, sections@, (i + 1) as nat));
        i = i + 1;
    }
    out
}

/// A report never shows a section twice, shows its own first, and shows the others exactly when
/// they were asked for.
pub proof fn sections_are_shown_once(command_kind: AgentReportKind, sections: Seq<AgentReportKind>)
    ensures
        (seq![command_kind] + extra_sections(command_kind, sections, 4)).no_duplicates(),
        (seq![command_kind] + extra_sections(command_kind, sections, 4))[0] == command_kind,
        forall|kind: AgentReportKind| #[trigger]
            (seq![command_kind] + extra_sections(command_kind, sections, 4)).contains(kind) <==> kind
                == command_kind || sections.contains(kind),
{
    let pred = |kind: AgentReportKind| is_extra(command_kind, sections, kind);
    let extra = extra_sections(command_kind, sections, 4);
    let all = seq![command_kind] + extra;
    let order = section_order();
    assert(order.take(4) =~= order);
    reveal_with_fuel(Seq::filter, 5);
    assert(order.drop_last().drop_last().drop_last().drop_last() =~= Seq::empty());
    assert(extra.no_duplicates());
    assert forall|kind: AgentReportKind| #[trigger] all.contains(kind) <==> kind == command_kind
        || sections.contains(kind) by {
        assert(order[0] == AgentReportKind::Daily && order[1] == AgentReportKind::Weekly
            && order[2] == AgentReportKind::Monthly && order[3] == AgentReportKind::Session);
        if all.contains(kind) {
            let i = choose|i: int| 0 <= i < all.len() && all[i] == kind;
            if i > 0 {
                order.lemma_filter_pred(pred, i - 1);
            }
        }
        if kind == command_kind {
            assert(all[0] == kind);
        } else if sections.contains(kind) {
            let k: int = match kind {
                AgentReportKind::Daily => 0,
                AgentReportKind::Weekly => 1,
                AgentReportKind::Monthly => 2,
                AgentReportKind::Session => 3,
            };
            assert(order[k] == kind);
            order.lemma_filter_contains(pred, k);
            let j = choose|j: int| 0 <= j < extra.len() && extra[j] == kind;
            assert(all[j + 1] == kind);
        }
    }
    assert forall|i: int, j: int| 0 <= i < all.len() && 0 <= j < all.len() && i != j implies all[i]
        != all[j] by {
        if i > 0 {
            order.lemma_filter_pred(pred, i - 1);
        }
        if j > 0 {
            order.lemma_filter_pred(pred, j - 1);
        }
    }
}

impl Ranked for AllRow {
    open spec fn precedes(&self, other: &Self) -> bool {
        key_le(self.rank(), other.rank())
    }

    proof fn rank_total(a: &Self, b: &Self) {
        lemma_key_order(a.rank(), b.rank());
    }

    proof fn rank_transitive(a: &Self, b: &Self, c: &Self) {
        lemma_key_transitive(a.rank(), b.rank(), c.rank());
    }

    fn at_or_before(&self, other: &Self) -> (r: bool) {
        proof {
            reveal_with_fuel(key_le, 3);
            assert(self.rank().drop_first() =~= seq![self.agent@]);
            assert(other.rank().drop_first() =~= seq![other.agent@]);
            crate::order::lemma_text_order(self.agent@, other.agent@);
        }
        if same_text(self.period.as_str(), other.period.as_str()) {
            text_at_or_before(self.agent.as_str(), other.agent.as_str())
        } else {
            text_at_or_before(self.period.as_str(), other.period.as_str())
        }
    }
}

/// `output` are the rows of `input` by period and agent, in the given direction. Rows that share
/// both keep their order when ascending, and have it reversed when descending.
pub open spec fn is_sorted_report(
    input: Seq<AllRow>,
    output: Seq<AllRow>,
    order: SortOrder,
) -> bool {
    match order {
        SortOrder::Asc => is_stable_sort(input, output),
        SortOrder::Desc => is_stable_sort(input, output.reverse()),
    }
}

/// Sorts rows by period and agent.
pub fn sort_rows(rows: &mut Vec<AllRow>, order: &SortOrder)
    ensures
        is_sorted_report(old(rows)@, final(rows)@, *order),
{
    let mut input: Vec<AllRow> = Vec::new();
    core::mem::swap(&mut input, rows);
    let mut sorted = stable_sort(input);
    if *order == SortOrder::Desc {
        let ghost all = sorted@;
        sorted = reversed(sorted);
        assert(sorted@.reverse() =~= all);
    }
    core::mem::swap(&mut sorted, rows);
}

} // verus!
