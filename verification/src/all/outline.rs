//! Where everything stands in a summary, and what each line of it shows.

use vstd::prelude::*;
use vstd::string::*;
use crate::all::labels::without_store;
use crate::all::period::period_label;
use crate::all::rows::{AllRow, ModelBreakdown};
use crate::all::summary::{
    agent_block, agent_line, agents_block, agents_models, day_block, day_line, days_block, grid, model_line,
    models_of, style_of, summary_lines, tokens_of, total_line, Grid, LineStyle, SummaryAgent,
    SummaryDay, SummaryModel,
};
use crate::all::summary_days::{
    agent_models, day_models, model_models, shown_agents, shown_days, shown_models,
};
use crate::cost::{Cost, NEGATIVE_ZERO_BITS};
use crate::figures::short_figure;
use crate::sums::{lemma_sum_add, sum_by};
use crate::text::{
    decimal, fill, is_white, occurs_in, repeated, stands_at, without_leading_white,
};

verus! {

/// How many lines agents take: one for each agent, one for each model, and an empty one between
/// two agents.
pub open spec fn agents_height<M>(agents: Seq<SummaryAgent<M>>) -> nat {
    sum_by(agents, |agent: SummaryAgent<M>| 1 + agent.models@.len()) + (if agents.len() > 0 {
        (agents.len() - 1) as nat
    } else {
        0
    })
}

/// How many lines days take: one for each day, those of its agents, and an empty one between two
/// days.
pub open spec fn days_height<M>(days: Seq<SummaryDay<M>>) -> nat {
    sum_by(days, |day: SummaryDay<M>| 1 + agents_height(day.agents@)) + (if days.len() > 0 {
        (days.len() - 1) as nat
    } else {
        0
    })
}

/// The place of an agent's line among those of its day: after the lines of the agents before it
/// and an empty one.
pub open spec fn agent_at<M>(agents: Seq<SummaryAgent<M>>, a: int) -> int {
    if a == 0 {
        0
    } else {
        agents_height(agents.take(a)) as int + 1
    }
}

/// The place of a day's line: after the lines of the days before it and an empty one.
pub open spec fn day_at<M>(days: Seq<SummaryDay<M>>, d: int) -> int {
    if d == 0 {
        0
    } else {
        days_height(days.take(d)) as int + 1
    }
}

/// The place `at` holds the line of an agent, and its models stand behind it, in order.
pub open spec fn agent_stands_at(
    lines: Seq<Seq<char>>,
    at: int,
    agent: SummaryAgent<String>,
    g: Grid,
) -> bool {
    &&& 0 <= at
    &&& at + agent.models@.len() < lines.len()
    &&& lines[at] == agent_line(agent, g)
    &&& forall|m: int|
        0 <= m < agent.models@.len() ==> lines[at + 1 + m] == model_line(
            #[trigger] agent.models@[m],
            g,
        )
}

/// Agent `a` stands at its place behind `at`, and an empty line before it unless it is the first.
pub open spec fn agent_stands(
    lines: Seq<Seq<char>>,
    at: int,
    agents: Seq<SummaryAgent<String>>,
    a: int,
    g: Grid,
) -> bool {
    &&& agent_stands_at(lines, at + agent_at(agents, a), agents[a], g)
    &&& a > 0 ==> 0 < at + agent_at(agents, a) && lines[at + agent_at(agents, a) - 1] == ""@
}

/// The place `at` holds the line of a day, and its agents stand behind it, in order.
pub open spec fn day_stands_at(
    lines: Seq<Seq<char>>,
    at: int,
    day: SummaryDay<String>,
    g: Grid,
) -> bool {
    &&& 0 <= at < lines.len()
    &&& lines[at] == day_line(day, g)
    &&& forall|a: int|
        0 <= a < day.agents@.len() ==> #[trigger] agent_stands(lines, at + 1, day.agents@, a, g)
}

/// Day `d` stands at its place, and an empty line before it unless it is the first.
pub open spec fn day_stands(
    lines: Seq<Seq<char>>,
    days: Seq<SummaryDay<String>>,
    d: int,
    g: Grid,
) -> bool {
    &&& day_stands_at(lines, day_at(days, d), days[d], g)
    &&& d > 0 ==> 0 < day_at(days, d) && lines[day_at(days, d) - 1] == ""@
}

/// The lines of `block` stand in `lines` from `start` on.
spec fn holds_from(lines: Seq<Seq<char>>, start: int, block: Seq<Seq<char>>) -> bool {
    &&& 0 <= start
    &&& start + block.len() <= lines.len()
    &&& lines.subrange(start, start + block.len()) == block
}

proof fn lemma_line_held(lines: Seq<Seq<char>>, start: int, block: Seq<Seq<char>>, k: int)
    requires
        holds_from(lines, start, block),
        0 <= k < block.len(),
    ensures
        lines[start + k] == block[k],
{
    assert(lines.subrange(start, start + block.len())[k] == block[k]);
}

proof fn lemma_agent_held(
    lines: Seq<Seq<char>>,
    start: int,
    block: Seq<Seq<char>>,
    at: int,
    agents: Seq<SummaryAgent<String>>,
    a: int,
    g: Grid,
)
    requires
        holds_from(lines, start, block),
        0 <= at,
        agent_stands(block, at, agents, a, g),
    ensures
        agent_stands(lines, start + at, agents, a, g),
{
    let place = at + agent_at(agents, a);
    let models = agents[a].models@;
    lemma_line_held(lines, start, block, place);
    assert forall|m: int| 0 <= m < models.len() implies lines[start + place + 1 + m] == model_line(
        #[trigger] models[m],
        g,
    ) by {
        lemma_line_held(lines, start, block, place + 1 + m);
    }
    if a > 0 {
        lemma_line_held(lines, start, block, place - 1);
    }
}

proof fn lemma_day_held(
    lines: Seq<Seq<char>>,
    start: int,
    block: Seq<Seq<char>>,
    at: int,
    day: SummaryDay<String>,
    g: Grid,
)
    requires
        holds_from(lines, start, block),
        day_stands_at(block, at, day, g),
    ensures
        day_stands_at(lines, start + at, day, g),
{
    lemma_line_held(lines, start, block, at);
    assert forall|a: int| 0 <= a < day.agents@.len() implies #[trigger] agent_stands(
        lines,
        start + at + 1,
        day.agents@,
        a,
        g,
    ) by {
        assert(agent_stands(block, at + 1, day.agents@, a, g));
        lemma_agent_held(lines, start, block, at + 1, day.agents@, a, g);
    }
}

proof fn lemma_agents_height_push<M>(agents: Seq<SummaryAgent<M>>)
    requires
        agents.len() > 0,
    ensures
        agents_height(agents) == agent_at(agents, agents.len() - 1) + 1
            + agents.last().models@.len(),
{
    let height = |agent: SummaryAgent<M>| 1 + agent.models@.len();
    assert(agents.take(agents.len() - 1) =~= agents.drop_last());
    if agents.len() == 1 {
        assert(sum_by(agents.drop_last(), height) == 0);
    }
}

proof fn lemma_days_height_push<M>(days: Seq<SummaryDay<M>>)
    requires
        days.len() > 0,
    ensures
        days_height(days) == day_at(days, days.len() - 1) + 1 + agents_height(days.last().agents@),
{
    let height = |day: SummaryDay<M>| 1 + agents_height(day.agents@);
    assert(days.take(days.len() - 1) =~= days.drop_last());
    if days.len() == 1 {
        assert(sum_by(days.drop_last(), height) == 0);
    }
}

proof fn lemma_agent_block(agent: SummaryAgent<String>, g: Grid)
    ensures
        agent_block(agent, g).len() == 1 + agent.models@.len(),
        agent_stands_at(agent_block(agent, g), 0, agent, g),
{
}

proof fn lemma_agents_outline(agents: Seq<SummaryAgent<String>>, g: Grid)
    ensures
        agents_block(agents, g).len() == agents_height(agents),
        forall|a: int|
            0 <= a < agents.len() ==> #[trigger] agent_stands(
                agents_block(agents, g),
                0,
                agents,
                a,
                g,
            ),
    decreases agents.len(),
{
    if agents.len() == 0 {
        assert(sum_by(agents, |agent: SummaryAgent<String>| 1 + agent.models@.len()) == 0);
    } else {
        let rest = agents.drop_last();
        let last = agents.last();
        let n = agents.len() - 1;
        let lines = agents_block(agents, g);
        let before = agents_block(rest, g);
        let own = agent_block(last, g);
        lemma_agents_outline(rest, g);
        lemma_agents_height_push(agents);
        lemma_agent_block(last, g);
        assert(agents.take(n) =~= rest);
        let start = agent_at(agents, n);
        assert(lines.subrange(start, start + own.len()) =~= own);
        assert(n > 0 ==> lines.subrange(0, before.len() as int) =~= before);
        assert forall|a: int| 0 <= a < agents.len() implies #[trigger] agent_stands(
            lines,
            0,
            agents,
            a,
            g,
        ) by {
            if a < n {
                assert(agents.take(a) =~= rest.take(a));
                assert(agent_stands(before, 0, rest, a, g));
                lemma_agent_held(lines, 0, before, 0, rest, a, g);
            } else {
                assert forall|m: int| 0 <= m < last.models@.len() implies lines[start + 1 + m]
                    == model_line(#[trigger] last.models@[m], g) by {
                    lemma_line_held(lines, start, own, 1 + m);
                }
                lemma_line_held(lines, start, own, 0);
            }
        }
    }
}

proof fn lemma_day_block(day: SummaryDay<String>, g: Grid)
    ensures
        day_block(day, g).len() == 1 + agents_height(day.agents@),
        day_stands_at(day_block(day, g), 0, day, g),
{
    let block = day_block(day, g);
    let inner = agents_block(day.agents@, g);
    lemma_agents_outline(day.agents@, g);
    assert(block.subrange(1, 1 + inner.len() as int) =~= inner);
    assert forall|a: int| 0 <= a < day.agents@.len() implies #[trigger] agent_stands(
        block,
        1,
        day.agents@,
        a,
        g,
    ) by {
        assert(agent_stands(inner, 0, day.agents@, a, g));
        lemma_agent_held(block, 1, inner, 0, day.agents@, a, g);
    }
}

proof fn lemma_days_outline(days: Seq<SummaryDay<String>>, g: Grid)
    ensures
        days_block(days, g).len() == days_height(days),
        forall|d: int|
            0 <= d < days.len() ==> #[trigger] day_stands(days_block(days, g), days, d, g),
    decreases days.len(),
{
    if days.len() == 0 {
        assert(sum_by(days, |day: SummaryDay<String>| 1 + agents_height(day.agents@)) == 0);
    } else {
        let rest = days.drop_last();
        let last = days.last();
        let n = days.len() - 1;
        let lines = days_block(days, g);
        let before = days_block(rest, g);
        let own = day_block(last, g);
        lemma_days_outline(rest, g);
        lemma_days_height_push(days);
        lemma_day_block(last, g);
        assert(days.take(n) =~= rest);
        let start = day_at(days, n);
        assert(lines.subrange(start, start + own.len()) =~= own);
        assert(n > 0 ==> lines.subrange(0, before.len() as int) =~= before);
        assert forall|d: int| 0 <= d < days.len() implies #[trigger] day_stands(
            lines,
            days,
            d,
            g,
        ) by {
            if d < n {
                assert(days.take(d) =~= rest.take(d));
                assert(day_stands(before, rest, d, g));
                lemma_day_held(lines, 0, before, day_at(rest, d), rest[d], g);
                if d > 0 {
                    lemma_line_held(lines, 0, before, day_at(rest, d) - 1);
                }
            } else {
                lemma_day_held(lines, start, own, 0, last, g);
            }
        }
    }
}

/// The tokens of a model.
pub open spec fn model_total<M>(model: SummaryModel<M>) -> nat {
    model.input as nat + model.output as nat + model.cache_read as nat + model.cache_write as nat
}

/// The tokens of an agent's models.
pub open spec fn agent_total<M>(agent: SummaryAgent<M>) -> nat {
    sum_by(agent.models@, |model: SummaryModel<M>| model_total(model))
}

/// The tokens of a day's models.
pub open spec fn day_total<M>(day: SummaryDay<M>) -> nat {
    sum_by(day.agents@, |agent: SummaryAgent<M>| agent_total(agent))
}

proof fn lemma_tokens_summed<M>(models: Seq<SummaryModel<M>>)
    ensures
        tokens_of(models) == sum_by(models, |model: SummaryModel<M>| model_total(model)),
    decreases models.len(),
{
    if models.len() > 0 {
        lemma_tokens_summed(models.drop_last());
    }
}

proof fn lemma_agents_tokens<M>(agents: Seq<SummaryAgent<M>>)
    ensures
        tokens_of(agents_models(agents)) == sum_by(
            agents,
            |agent: SummaryAgent<M>| agent_total(agent),
        ),
    decreases agents.len(),
{
    let f = |model: SummaryModel<M>| model_total(model);
    lemma_tokens_summed(agents_models(agents));
    if agents.len() > 0 {
        let rest = agents.drop_last();
        lemma_agents_tokens(rest);
        lemma_tokens_summed(agents_models(rest));
        lemma_sum_add(agents_models(rest), agents.last().models@, f);
    }
}

/// The tokens of all models are the tokens of the days: every model of every agent of every day is
/// counted once, with all four of its counts.
pub proof fn every_model_is_counted<M>(days: Seq<SummaryDay<M>>)
    ensures
        tokens_of(models_of(days)) == sum_by(days, |day: SummaryDay<M>| day_total(day)),
    decreases days.len(),
{
    let f = |model: SummaryModel<M>| model_total(model);
    lemma_tokens_summed(models_of(days));
    if days.len() > 0 {
        let rest = days.drop_last();
        let own = agents_models(days.last().agents@);
        every_model_is_counted(rest);
        lemma_tokens_summed(models_of(rest));
        lemma_agents_tokens(days.last().agents@);
        lemma_tokens_summed(own);
        lemma_sum_add(models_of(rest), own, f);
    }
}

/// Nothing is missing from a summary: every day, every agent of it and every model of that has its
/// line, at its place and in order, and the total stands at the end. There are no lines but those
/// and the empty ones between agents, between days and before the total. The total counts the
/// tokens of every model.
pub proof fn everything_has_its_line(
    days: Seq<SummaryDay<String>>,
    grand: Seq<char>,
    width: nat,
)
    ensures
        summary_lines(days, grand, width).len() == days_height(days) + 2,
        forall|d: int|
            0 <= d < days.len() ==> #[trigger] day_stands(
                summary_lines(days, grand, width),
                days,
                d,
                grid(days, grand, width),
            ),
        summary_lines(days, grand, width)[days_height(days) as int] == ""@,
        summary_lines(days, grand, width).last() == total_line(
            days.len(),
            sum_by(days, |day: SummaryDay<String>| day_total(day)),
            grand,
            grid(days, grand, width),
        ),
{
    let g = grid(days, grand, width);
    let lines = summary_lines(days, grand, width);
    let block = days_block(days, g);
    lemma_days_outline(days, g);
    assert(lines.subrange(0, block.len() as int) =~= block);
    assert forall|d: int| 0 <= d < days.len() implies #[trigger] day_stands(lines, days, d, g) by {
        assert(day_stands(block, days, d, g));
        lemma_day_held(lines, 0, block, day_at(days, d), days[d], g);
        if d > 0 {
            lemma_line_held(lines, 0, block, day_at(days, d) - 1);
        }
    }
    every_model_is_counted(days);
}

/// The text is made of spaces.
pub open spec fn is_gap(text: Seq<char>) -> bool {
    forall|i: int| 0 <= i < text.len() ==> #[trigger] text[i] == ' '
}

/// The text is made of one character, again and again.
pub open spec fn is_run(text: Seq<char>, c: char) -> bool {
    text.len() > 0 && forall|i: int| 0 <= i < text.len() ==> #[trigger] text[i] == c
}

/// The line is made of the parts, in order, with nothing but spaces before and between them.
pub open spec fn spaced_out(line: Seq<char>, parts: Seq<Seq<char>>) -> bool
    decreases parts.len(),
{
    if parts.len() == 0 {
        line.len() == 0
    } else {
        exists|front: Seq<char>, gap: Seq<char>|
            #![trigger front + gap]
            spaced_out(front, parts.drop_last()) && is_gap(gap) && line == front + gap
                + parts.last()
    }
}

proof fn lemma_spaced_push(
    front: Seq<char>,
    parts: Seq<Seq<char>>,
    gap: Seq<char>,
    part: Seq<char>,
)
    requires
        spaced_out(front, parts),
        is_gap(gap),
    ensures
        spaced_out(front + gap + part, parts.push(part)),
{
    assert(parts.push(part).drop_last() =~= parts);
    assert(parts.push(part).last() == part);
    assert(front + gap + part == front + gap + parts.push(part).last());
}

/// What a model's line shows: its name, its input, its output, its cache traffic and its cost, in
/// that order, with nothing but spaces around them.
pub proof fn model_lines_show_their_model(model: SummaryModel<String>, g: Grid)
    ensures
        spaced_out(
            model_line(model, g),
            seq![
                model.name@,
                "↑"@ + short_figure(model.input as nat),
                "↓"@ + short_figure(model.output as nat),
                (if model.cache_write > 0 {
                    "cached +"@ + short_figure(model.cache_write as nat) + " / "@
                } else {
                    "cached "@
                }) + short_figure(model.cache_read as nat),
                model.cost@,
            ],
        ),
{
    reveal_strlit(" ");
    reveal_strlit("      ");
    let input = "↑"@ + short_figure(model.input as nat);
    let output = "↓"@ + short_figure(model.output as nat);
    let cache = (if model.cache_write > 0 {
        "cached +"@ + short_figure(model.cache_write as nat) + " / "@
    } else {
        "cached "@
    }) + short_figure(model.cache_read as nat);
    let pad = repeated(
        ' ',
        crate::all::summary::left_of(g.cache as nat, crate::text::byte_len(cache)),
    );
    let gap1 = fill(model.name@, g.name as nat) + " "@ + fill(input, g.input as nat);
    let gap2 = " "@ + fill(output, g.output as nat);
    let gap3 = " "@ + pad;
    let gap4 = " "@ + fill(model.cost@, g.money as nat);
    let start = Seq::<char>::empty();
    let parts = Seq::<Seq<char>>::empty();
    assert(spaced_out(start, parts));
    let line1 = start + "      "@ + model.name@;
    lemma_spaced_push(start, parts, "      "@, model.name@);
    let parts1 = parts.push(model.name@);
    let line2 = line1 + gap1 + input;
    lemma_spaced_push(line1, parts1, gap1, input);
    let parts2 = parts1.push(input);
    let line3 = line2 + gap2 + output;
    lemma_spaced_push(line2, parts2, gap2, output);
    let parts3 = parts2.push(output);
    let line4 = line3 + gap3 + cache;
    lemma_spaced_push(line3, parts3, gap3, cache);
    let parts4 = parts3.push(cache);
    let line5 = line4 + gap4 + model.cost@;
    lemma_spaced_push(line4, parts4, gap4, model.cost@);
    assert(parts4.push(model.cost@) =~= seq![model.name@, input, output, cache, model.cost@]);
    assert(line5 =~= model_line(model, g));
}

/// What the lines of days and agents show: the label or the name, a rule, and the cost at the end.
pub proof fn header_lines_show_their_cost(
    day: SummaryDay<String>,
    agent: SummaryAgent<String>,
    g: Grid,
)
    ensures
        exists|rule: Seq<char>, gap: Seq<char>| #[trigger]
            is_run(rule, '─') && #[trigger] is_gap(gap) && day_line(day, g) == " "@ + day.label@
                + rule + gap + day.total_cost@,
        exists|rule: Seq<char>, gap: Seq<char>| #[trigger]
            is_run(rule, '·') && #[trigger] is_gap(gap) && agent_line(agent, g) == "   "@
                + agent.name@ + rule + gap + agent.total_cost@,
{
    reveal_strlit(" ");
    let label = " "@ + day.label@;
    let dashes = repeated(
        '─',
        crate::all::summary::rule(
            g.width as nat,
            crate::text::byte_len(label) + 1 + g.money as nat,
        ),
    );
    let gap = " "@ + fill(day.total_cost@, g.money as nat);
    assert(is_run(dashes, '─'));
    assert(is_gap(gap));
    assert(day_line(day, g) =~= " "@ + day.label@ + dashes + gap + day.total_cost@);
    let dots = repeated(
        '·',
        crate::all::summary::rule(
            g.width as nat,
            3 + crate::text::byte_len(agent.name@) + 1 + g.money as nat,
        ),
    );
    let room = " "@ + fill(agent.total_cost@, g.money as nat);
    assert(is_run(dots, '·'));
    assert(is_gap(room));
    assert(agent_line(agent, g) =~= "   "@ + agent.name@ + dots + room + agent.total_cost@);
}

/// What the total line says: the number of days, the tokens and the grand total.
pub proof fn the_total_line_says(count: nat, tokens: nat, grand: Seq<char>, g: Grid)
    ensures
        exists|rule: Seq<char>, gap: Seq<char>| #[trigger]
            is_run(rule, '─') && #[trigger] is_gap(gap) && total_line(count, tokens, grand, g)
                == "  TOTAL  "@ + decimal(count) + " days · "@ + short_figure(tokens) + " tokens "@
                + rule + gap + grand,
{
    reveal_strlit(" ");
    reveal_strlit(" tokens");
    reveal_strlit(" tokens ");
    let meta = decimal(count) + " days · "@ + short_figure(tokens) + " tokens"@;
    let dashes = repeated(
        '─',
        crate::all::summary::rule(
            g.width as nat,
            10 + crate::text::byte_len(meta) + g.money as nat,
        ),
    );
    let gap = " "@ + fill(grand, g.money as nat);
    assert(is_run(dashes, '─'));
    assert(is_gap(gap));
    assert(" tokens "@ =~= " tokens"@ + " "@);
    assert(total_line(count, tokens, grand, g) =~= "  TOTAL  "@ + decimal(count) + " days · "@
        + short_figure(tokens) + " tokens "@ + dashes + gap + grand);
}

/// The model has tokens of some kind.
pub open spec fn model_counts(model: ModelBreakdown) -> bool {
    ||| model.input_tokens > 0
    ||| model.output_tokens > 0
    ||| model.cache_creation_tokens > 0
    ||| model.cache_read_tokens > 0
}

/// The agent has a cost or a model.
pub open spec fn agent_counts(agent: AllRow) -> bool {
    ||| agent.total_cost.bits != 0 && agent.total_cost.bits != NEGATIVE_ZERO_BITS
    ||| agent.models_used@.len() > 0
}

/// `shown` are the models with tokens, in order, each with its own counts and cost.
pub open spec fn shows_models(
    shown: Seq<SummaryModel<Cost>>,
    models: Seq<ModelBreakdown>,
) -> bool {
    let kept = models.filter(|model: ModelBreakdown| model_counts(model));
    &&& shown.len() == kept.len()
    &&& forall|i: int|
        0 <= i < kept.len() ==> {
            &&& (#[trigger] shown[i]).name@ == without_store(kept[i].model_name@)
            &&& shown[i].input == kept[i].input_tokens
            &&& shown[i].output == kept[i].output_tokens
            &&& shown[i].cache_read == kept[i].cache_read_tokens
            &&& shown[i].cache_write == kept[i].cache_creation_tokens
            &&& shown[i].cost == kept[i].cost
        }
}

/// `shown` are the agents with a cost or a model, in order, each with its own cost and models.
pub open spec fn shows_agents(shown: Seq<SummaryAgent<Cost>>, agents: Seq<AllRow>) -> bool {
    let kept = agents.filter(|agent: AllRow| agent_counts(agent));
    &&& shown.len() == kept.len()
    &&& forall|i: int|
        0 <= i < kept.len() ==> {
            &&& (#[trigger] shown[i]).name@ == without_store(kept[i].agent@)
            &&& shown[i].total_cost == kept[i].total_cost
            &&& shows_models(shown[i].models@, kept[i].model_breakdowns@)
        }
}

proof fn lemma_shows_models(shown: Seq<SummaryModel<Cost>>, models: Seq<ModelBreakdown>)
    requires
        model_models(shown) == shown_models(models),
    ensures
        shows_models(shown, models),
    decreases models.len(),
{
    let pred = |model: ModelBreakdown| model_counts(model);
    assert(model_models(shown).len() == shown.len());
    if models.len() == 0 {
        models.lemma_filter_len(pred);
    } else {
        let rest = models.drop_last();
        let last = models.last();
        assert(models =~= rest.push(last));
        rest.lemma_filter_push(last, pred);
        if model_counts(last) {
            let front = shown.drop_last();
            assert(model_models(front) =~= model_models(shown).drop_last());
            assert(model_models(shown).drop_last() =~= shown_models(rest));
            lemma_shows_models(front, rest);
            let kept = models.filter(pred);
            assert(model_models(shown).last() == shown.last().model());
            assert forall|i: int| 0 <= i < kept.len() implies {
                &&& (#[trigger] shown[i]).name@ == without_store(kept[i].model_name@)
                &&& shown[i].input == kept[i].input_tokens
                &&& shown[i].output == kept[i].output_tokens
                &&& shown[i].cache_read == kept[i].cache_read_tokens
                &&& shown[i].cache_write == kept[i].cache_creation_tokens
                &&& shown[i].cost == kept[i].cost
            } by {
                if i < front.len() {
                    assert(front[i] == shown[i]);
                    assert(rest.filter(pred)[i] == kept[i]);
                }
            }
        } else {
            lemma_shows_models(shown, rest);
        }
    }
}

proof fn lemma_shows_agents(shown: Seq<SummaryAgent<Cost>>, agents: Seq<AllRow>)
    requires
        agent_models(shown) == shown_agents(agents),
    ensures
        shows_agents(shown, agents),
    decreases agents.len(),
{
    let pred = |agent: AllRow| agent_counts(agent);
    assert(agent_models(shown).len() == shown.len());
    if agents.len() == 0 {
        agents.lemma_filter_len(pred);
    } else {
        let rest = agents.drop_last();
        let last = agents.last();
        assert(agents =~= rest.push(last));
        rest.lemma_filter_push(last, pred);
        if agent_counts(last) {
            let front = shown.drop_last();
            assert(agent_models(front) =~= agent_models(shown).drop_last());
            assert(agent_models(shown).drop_last() =~= shown_agents(rest));
            lemma_shows_agents(front, rest);
            let kept = agents.filter(pred);
            assert(agent_models(shown).last() == shown.last().model());
            lemma_shows_models(shown.last().models@, last.model_breakdowns@);
            assert forall|i: int| 0 <= i < kept.len() implies {
                &&& (#[trigger] shown[i]).name@ == without_store(kept[i].agent@)
                &&& shown[i].total_cost == kept[i].total_cost
                &&& shows_models(shown[i].models@, kept[i].model_breakdowns@)
            } by {
                if i < front.len() {
                    assert(front[i] == shown[i]);
                    assert(rest.filter(pred)[i] == kept[i]);
                }
            }
        } else {
            lemma_shows_agents(shown, rest);
        }
    }
}

/// The days of a summary are those of the report: a day for each row, in order, with its cost, its
/// agents that have a cost or a model, and their models that have tokens, each with its own counts
/// and cost.
pub proof fn days_show_their_rows(rows: Seq<AllRow>, days: Seq<SummaryDay<Cost>>)
    requires
        day_models(days) == shown_days(rows),
    ensures
        days.len() == rows.len(),
        forall|i: int|
            0 <= i < rows.len() ==> {
                &&& (#[trigger] days[i]).label@ == period_label(rows[i].period@)
                &&& days[i].total_cost == rows[i].total_cost
                &&& rows[i].agent_breakdowns matches Some(agents) ==> shows_agents(
                    days[i].agents@,
                    agents@,
                )
                &&& rows[i].agent_breakdowns is None ==> days[i].agents@.len() == 0
            },
{
    assert(day_models(days).len() == days.len());
    assert(shown_days(rows).len() == rows.len());
    assert forall|i: int| 0 <= i < rows.len() implies {
        &&& (#[trigger] days[i]).label@ == period_label(rows[i].period@)
        &&& days[i].total_cost == rows[i].total_cost
        &&& rows[i].agent_breakdowns matches Some(agents) ==> shows_agents(
            days[i].agents@,
            agents@,
        )
        &&& rows[i].agent_breakdowns is None ==> days[i].agents@.len() == 0
    } by {
        assert(day_models(days)[i] == days[i].model());
        assert(day_models(days)[i] == shown_days(rows)[i]);
        match rows[i].agent_breakdowns {
            Some(agents) => {
                lemma_shows_agents(days[i].agents@, agents@);
            },
            None => {
                assert(agent_models(days[i].agents@).len() == days[i].agents@.len());
            },
        }
    }
}

/// The text has neither an arrow nor a capital T, which would be taken for a model or the total.
pub open spec fn is_quiet(text: Seq<char>) -> bool {
    forall|i: int| 0 <= i < text.len() ==> #[trigger] text[i] != '↑' && text[i] != 'T'
}

proof fn lemma_quiet(line: Seq<char>)
    requires
        is_quiet(line),
    ensures
        !occurs_in("↑"@, line),
        !occurs_in("TOTAL"@, line),
{
    reveal_strlit("↑");
    reveal_strlit("TOTAL");
    assert forall|at: int| !stands_at(line, at, "↑"@) by {
        if stands_at(line, at, "↑"@) {
            assert(line.subrange(at, at + 1)[0] == '↑');
            assert(line[at] == '↑');
        }
    }
    assert forall|at: int| !stands_at(line, at, "TOTAL"@) by {
        if stands_at(line, at, "TOTAL"@) {
            assert(line.subrange(at, at + 5)[0] == 'T');
            assert(line[at] == 'T');
        }
    }
}

/// The lines of days are dim, those of agents and models plain, and the total is bold, as long as no
/// text in them looks like another kind of line.
pub proof fn lines_are_styled_by_what_they_show(
    day: SummaryDay<String>,
    agent: SummaryAgent<String>,
    model: SummaryModel<String>,
    count: nat,
    tokens: nat,
    grand: Seq<char>,
    g: Grid,
)
    requires
        is_quiet(day.label@),
        is_quiet(day.total_cost@),
        is_quiet(agent.name@),
        is_quiet(agent.total_cost@),
        !agent.name@.contains('─'),
        !agent.total_cost@.contains('─'),
        model.name@.len() > 0,
        !is_white(model.name@[0]),
        model.name@[0] != 'T',
    ensures
        style_of(day_line(day, g)) == LineStyle::Dim,
        style_of(agent_line(agent, g)) == LineStyle::Plain,
        style_of(model_line(model, g)) == LineStyle::Plain,
        style_of(total_line(count, tokens, grand, g)) == LineStyle::Bold,
{
    lemma_day_style(day, g);
    lemma_agent_style(agent, g);
    lemma_model_style(model, g);
    lemma_total_style(count, tokens, grand, g);
}

proof fn lemma_day_style(day: SummaryDay<String>, g: Grid)
    requires
        is_quiet(day.label@),
        is_quiet(day.total_cost@),
    ensures
        style_of(day_line(day, g)) == LineStyle::Dim,
{
    let line = day_line(day, g);
    reveal_strlit(" ");
    reveal_strlit("─");
    assert(is_quiet(line));
    lemma_quiet(line);
    assert(" "@ =~= line.take(1));
    let at = 1 + day.label@.len() as int;
    assert(line[at] == '─');
    assert(line.subrange(at, at + 1) =~= "─"@);
    assert(stands_at(line, at, "─"@));
}

proof fn lemma_agent_style(agent: SummaryAgent<String>, g: Grid)
    requires
        is_quiet(agent.name@),
        is_quiet(agent.total_cost@),
        !agent.name@.contains('─'),
        !agent.total_cost@.contains('─'),
    ensures
        style_of(agent_line(agent, g)) == LineStyle::Plain,
{
    let line = agent_line(agent, g);
    reveal_strlit(" ");
    reveal_strlit("   ");
    reveal_strlit("─");
    reveal_strlit("──");
    reveal_strlit("TOTAL");
    assert(is_quiet(line));
    lemma_quiet(line);
    assert forall|i: int| 0 <= i < line.len() implies line[i] != '─' by {
        if 3 <= i < 3 + agent.name@.len() {
            assert(agent.name@.contains(agent.name@[i - 3]));
        }
        let n = line.len() - agent.total_cost@.len();
        if n <= i {
            assert(agent.total_cost@.contains(agent.total_cost@[i - n]));
        }
    }
    assert forall|at: int| !stands_at(line, at, "─"@) by {
        if stands_at(line, at, "─"@) {
            assert(line.subrange(at, at + 1)[0] == '─');
        }
    }
    assert forall|at: int| !stands_at(line, at, "──"@) by {
        if stands_at(line, at, "──"@) {
            assert(line.subrange(at, at + 2)[0] == '─');
        }
    }
    lemma_quiet_start(line);
}

proof fn lemma_quiet_start(line: Seq<char>)
    requires
        is_quiet(line),
    ensures
        !"TOTAL"@.is_prefix_of(without_leading_white(line)),
    decreases line.len(),
{
    reveal_strlit("TOTAL");
    if line.len() > 0 && is_white(line[0]) {
        let rest = line.drop_first();
        assert forall|i: int| 0 <= i < rest.len() implies #[trigger] rest[i] != '↑' && rest[i]
            != 'T' by {
            assert(rest[i] == line[i + 1]);
        }
        lemma_quiet_start(rest);
    } else if "TOTAL"@.is_prefix_of(line) {
        assert(line.take(5)[0] == 'T');
        assert(line[0] == 'T');
    }
}

proof fn lemma_model_style(model: SummaryModel<String>, g: Grid)
    requires
        model.name@.len() > 0,
        !is_white(model.name@[0]),
        model.name@[0] != 'T',
    ensures
        style_of(model_line(model, g)) == LineStyle::Plain,
{
    let line = model_line(model, g);
    reveal_strlit(" ");
    reveal_strlit("      ");
    reveal_strlit("↑");
    reveal_strlit("TOTAL");
    let front = "      "@ + model.name@ + fill(model.name@, g.name as nat) + " "@ + fill(
        "↑"@ + short_figure(model.input as nat),
        g.input as nat,
    );
    let at = front.len() as int;
    assert(line[at] == '↑');
    assert(line.subrange(at, at + 1) =~= "↑"@);
    assert(stands_at(line, at, "↑"@));
    assert(line[6] == model.name@[0]);
    lemma_spaces_come_off(line, 6);
    let start = without_leading_white(line);
    if "TOTAL"@.is_prefix_of(start) {
        assert(start.take(5)[0] == 'T');
        assert(start[0] == 'T');
    }
}

proof fn lemma_total_style(count: nat, tokens: nat, grand: Seq<char>, g: Grid)
    ensures
        style_of(total_line(count, tokens, grand, g)) == LineStyle::Bold,
{
    let line = total_line(count, tokens, grand, g);
    reveal_strlit("  TOTAL  ");
    reveal_strlit("TOTAL");
    assert(line.subrange(2, 7) =~= "TOTAL"@);
    assert(stands_at(line, 2, "TOTAL"@));
    lemma_spaces_come_off(line, 2);
    assert(line.skip(2).take(5) =~= "TOTAL"@);
}

proof fn lemma_spaces_come_off(line: Seq<char>, n: nat)
    requires
        n < line.len(),
        forall|i: int| 0 <= i < n ==> #[trigger] line[i] == ' ',
        !is_white(line[n as int]),
    ensures
        without_leading_white(line) == line.skip(n as int),
    decreases n,
{
    if n == 0 {
        assert(line.skip(0) =~= line);
    } else {
        let rest = line.drop_first();
        assert forall|i: int| 0 <= i < n - 1 implies #[trigger] rest[i] == ' ' by {
            assert(rest[i] == line[i + 1]);
        }
        lemma_spaces_come_off(rest, (n - 1) as nat);
        assert(rest.skip(n - 1) =~= line.skip(n as int));
    }
}

} // verus!
