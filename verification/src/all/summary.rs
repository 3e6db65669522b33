//! The summary view: one block per day, with a line per agent and a line per model.
//!
//! All columns come from one grid: money ends on a single rail at the right edge, tokens end on
//! their own rails, and nothing else may push them around.

use vstd::prelude::*;
use vstd::string::*;
use crate::figures::{short_figure, short_tokens};
use crate::text::{
    align_left, align_right, byte_len, byte_length, concat2, concat3, contains_text, decimal,
    left_aligned, number, occurs_in, repeat, repeated, right_aligned, starts_with, texts,
    trim_start, without_leading_white,
};

verus! {

/// One day of the summary. `M` is an amount, or its rendering.
#[derive(Debug)]
pub struct SummaryDay<M> {
    pub label: String,
    pub total_cost: M,
    pub agents: Vec<SummaryAgent<M>>,
}

/// One agent of a day.
#[derive(Debug)]
pub struct SummaryAgent<M> {
    pub name: String,
    pub total_cost: M,
    pub models: Vec<SummaryModel<M>>,
}

/// One model of an agent.
#[derive(Debug)]
pub struct SummaryModel<M> {
    pub name: String,
    pub input: u64,
    pub output: u64,
    pub cache_read: u64,
    pub cache_write: u64,
    pub cost: M,
}

/// The widths of the columns, in characters.
#[derive(Debug, Clone, Copy, PartialEq, Eq, Structural)]
pub struct Grid {
    pub width: usize,
    pub name: usize,
    pub input: usize,
    pub output: usize,
    pub money: usize,
    pub cache: usize,
}

/// The narrowest and the widest summary.
pub const MIN_WIDTH: usize = 72;

pub const MAX_WIDTH: usize = 104;

/// The models of agents, in order.
pub open spec fn agents_models<M>(agents: Seq<SummaryAgent<M>>) -> Seq<SummaryModel<M>>
    decreases agents.len(),
{
    if agents.len() == 0 {
        Seq::empty()
    } else {
        agents_models(agents.drop_last()) + agents.last().models@
    }
}

/// The models of all days, in order.
pub open spec fn models_of<M>(days: Seq<SummaryDay<M>>) -> Seq<SummaryModel<M>>
    decreases days.len(),
{
    if days.len() == 0 {
        Seq::empty()
    } else {
        models_of(days.drop_last()) + agents_models(days.last().agents@)
    }
}

/// The agents of all days, in order.
pub open spec fn agents_of<M>(days: Seq<SummaryDay<M>>) -> Seq<SummaryAgent<M>>
    decreases days.len(),
{
    if days.len() == 0 {
        Seq::empty()
    } else {
        agents_of(days.drop_last()) + days.last().agents@
    }
}

/// The largest number, or zero where there is none.
pub open spec fn largest(numbers: Seq<nat>) -> nat
    decreases numbers.len(),
{
    if numbers.len() == 0 {
        0
    } else {
        let rest = largest(numbers.drop_last());
        if rest < numbers.last() {
            numbers.last()
        } else {
            rest
        }
    }
}

/// `n`, or the nearer bound where it lies outside.
pub open spec fn clamped(n: nat, low: nat, high: nat) -> nat {
    if n < low {
        low
    } else if n > high {
        high
    } else {
        n
    }
}

/// What a model's input column shows.
pub open spec fn input_text(tokens: u64) -> Seq<char> {
    "↑"@ + short_figure(tokens as nat)
}

/// What a model's output column shows.
pub open spec fn output_text(tokens: u64) -> Seq<char> {
    "↓"@ + short_figure(tokens as nat)
}

/// Every rendered amount: those of the models, the agents and the days, and the grand total.
pub open spec fn amounts(days: Seq<SummaryDay<String>>, grand: Seq<char>) -> Seq<Seq<char>> {
    models_of(days).map_values(|m: SummaryModel<String>| m.cost@) + agents_of(days).map_values(
        |a: SummaryAgent<String>| a.total_cost@,
    ) + days.map_values(|d: SummaryDay<String>| d.total_cost@) + seq![grand]
}

/// The sizes of texts in bytes.
pub open spec fn sizes(list: Seq<Seq<char>>) -> Seq<nat> {
    list.map_values(|t: Seq<char>| byte_len(t))
}

/// What is left of `width` after `used`; nothing where more is used.
pub open spec fn left_of(width: nat, used: nat) -> nat {
    if used < width {
        (width - used) as nat
    } else {
        0
    }
}

/// The length of a rule that fills the rest of a line: at least three characters.
pub open spec fn rule(width: nat, used: nat) -> nat {
    if left_of(width, used) < 3 {
        3
    } else {
        left_of(width, used)
    }
}

/// The columns of a summary: each as wide as its widest text, within bounds, and the cache
/// column as wide as the rest.
pub open spec fn grid(days: Seq<SummaryDay<String>>, grand: Seq<char>, width: nat) -> Grid {
    let models = models_of(days);
    let line = clamped(width, MIN_WIDTH as nat, MAX_WIDTH as nat);
    let name = clamped(
        largest(models.map_values(|m: SummaryModel<String>| byte_len(m.name@))),
        6,
        28,
    );
    let input = clamped(
        largest(models.map_values(|m: SummaryModel<String>| byte_len(input_text(m.input)))),
        4,
        9,
    );
    let output = clamped(
        largest(models.map_values(|m: SummaryModel<String>| byte_len(output_text(m.output)))),
        4,
        9,
    );
    let money = clamped(largest(sizes(amounts(days, grand))), 8, 13);
    Grid {
        width: line as usize,
        name: name as usize,
        input: input as usize,
        output: output as usize,
        money: money as usize,
        cache: left_of(line, 10 + name + input + output + money) as usize,
    }
}

/// Cache traffic: reads always, writes only where there are some.
pub open spec fn cache_text(read: u64, creation: u64) -> Seq<char> {
    if creation > 0 {
        "cached +"@ + short_figure(creation as nat) + " / "@ + short_figure(read as nat)
    } else {
        "cached "@ + short_figure(read as nat)
    }
}

/// Cache traffic: reads always, writes only where there are some.
pub fn cache_segment(read: u64, creation: u64) -> (out: String)
    ensures
        out@ == cache_text(read, creation),
{
    let reads = short_tokens(read);
    if creation > 0 {
        let writes = short_tokens(creation);
        let mut out = concat3("cached +", writes.as_str(), " / ");
        out.append(reads.as_str());
        out
    } else {
        concat2("cached ", reads.as_str())
    }
}

/// The line of a day: the label, a thin rule, and the cost on the rail.
pub open spec fn day_line(day: SummaryDay<String>, g: Grid) -> Seq<char> {
    let label = " "@ + day.label@;
    label + repeated('─', rule(g.width as nat, byte_len(label) + 1 + g.money as nat)) + " "@
        + right_aligned(day.total_cost@, g.money as nat)
}

/// The line of an agent: the name, a dotted leader, and the cost on the rail.
pub open spec fn agent_line(agent: SummaryAgent<String>, g: Grid) -> Seq<char> {
    "   "@ + agent.name@ + repeated(
        '·',
        rule(g.width as nat, 3 + byte_len(agent.name@) + 1 + g.money as nat),
    ) + " "@ + right_aligned(agent.total_cost@, g.money as nat)
}

/// The line of a model.
pub open spec fn model_line(model: SummaryModel<String>, g: Grid) -> Seq<char> {
    let cache = cache_text(model.cache_read, model.cache_write);
    "      "@ + left_aligned(model.name@, g.name as nat) + " "@ + right_aligned(
        input_text(model.input),
        g.input as nat,
    ) + " "@ + right_aligned(output_text(model.output), g.output as nat) + " "@ + repeated(
        ' ',
        left_of(g.cache as nat, byte_len(cache)),
    ) + cache + " "@ + right_aligned(model.cost@, g.money as nat)
}

/// The tokens of models of every kind together.
pub open spec fn tokens_of<M>(models: Seq<SummaryModel<M>>) -> nat
    decreases models.len(),
{
    if models.len() == 0 {
        0
    } else {
        let m = models.last();
        tokens_of(models.drop_last()) + m.input as nat + m.output as nat + m.cache_read as nat
            + m.cache_write as nat
    }
}

/// What the total line says besides the money.
pub open spec fn total_text(count: nat, tokens: nat) -> Seq<char> {
    decimal(count) + " days · "@ + short_figure(tokens) + " tokens"@
}

/// The line of the grand total.
pub open spec fn total_line(count: nat, tokens: nat, grand: Seq<char>, g: Grid) -> Seq<char> {
    let meta = total_text(count, tokens);
    "  TOTAL  "@ + meta + " "@ + repeated(
        '─',
        rule(g.width as nat, 10 + byte_len(meta) + g.money as nat),
    ) + " "@ + right_aligned(grand, g.money as nat)
}

/// The lines of an agent.
pub open spec fn agent_block(agent: SummaryAgent<String>, g: Grid) -> Seq<Seq<char>> {
    seq![agent_line(agent, g)] + agent.models@.map_values(
        |m: SummaryModel<String>| model_line(m, g),
    )
}

/// The lines of agents, with an empty line between two.
pub open spec fn agents_block(agents: Seq<SummaryAgent<String>>, g: Grid) -> Seq<Seq<char>>
    decreases agents.len(),
{
    if agents.len() == 0 {
        Seq::empty()
    } else if agents.len() == 1 {
        agent_block(agents.last(), g)
    } else {
        agents_block(agents.drop_last(), g).push(""@) + agent_block(agents.last(), g)
    }
}

/// The lines of a day.
pub open spec fn day_block(day: SummaryDay<String>, g: Grid) -> Seq<Seq<char>> {
    seq![day_line(day, g)] + agents_block(day.agents@, g)
}

/// The lines of days, with an empty line between two.
pub open spec fn days_block(days: Seq<SummaryDay<String>>, g: Grid) -> Seq<Seq<char>>
    decreases days.len(),
{
    if days.len() == 0 {
        Seq::empty()
    } else if days.len() == 1 {
        day_block(days.last(), g)
    } else {
        days_block(days.drop_last(), g).push(""@) + day_block(days.last(), g)
    }
}

/// The lines of a summary: the days, an empty line and the grand total.
pub open spec fn summary_lines(
    days: Seq<SummaryDay<String>>,
    grand: Seq<char>,
    width: nat,
) -> Seq<Seq<char>> {
    let g = grid(days, grand, width);
    days_block(days, g) + seq![
        ""@,
        total_line(days.len(), tokens_of(models_of(days)), grand, g),
    ]
}

/// What references point to.
pub open spec fn pointed<T>(list: Seq<&T>) -> Seq<T> {
    list.map_values(|t: &T| *t)
}

fn push_models<'a>(out: &mut Vec<&'a SummaryModel<String>>, agent: &'a SummaryAgent<String>)
    ensures
        pointed(final(out)@) == pointed(old(out)@) + agent.models@,
{
    let mut i: usize = 0;
    assert(pointed(out@) =~= pointed(old(out)@) + agent.models@.take(0));
    while i < agent.models.len()
        invariant
            i <= agent.models@.len(),
            pointed(out@) == pointed(old(out)@) + agent.models@.take(i as int),
        decreases agent.models@.len() - i,
    {
        let ghost before = pointed(out@);
        out.push(&agent.models[i]);
        assert(pointed(out@) =~= before.push(agent.models@[i as int]));
        assert(pointed(out@) =~= pointed(old(out)@) + agent.models@.take(i + 1));
        i = i + 1;
    }
    assert(agent.models@.take(agent.models@.len() as int) =~= agent.models@);
}

/// The agents of all days, in order.
fn all_agents<'a>(days: &'a Vec<SummaryDay<String>>) -> (out: Vec<&'a SummaryAgent<String>>)
    ensures
        pointed(out@) == agents_of(days@),
{
    let mut out: Vec<&'a SummaryAgent<String>> = Vec::new();
    let mut d: usize = 0;
    assert(days@.take(0) =~= Seq::empty());
    assert(pointed(out@) =~= Seq::empty());
    while d < days.len()
        invariant
            d <= days@.len(),
            pointed(out@) == agents_of(days@.take(d as int)),
        decreases days@.len() - d,
    {
        let agents = &days[d].agents;
        let ghost before = pointed(out@);
        let mut a: usize = 0;
        assert(before =~= before + agents@.take(0));
        while a < agents.len()
            invariant
                a <= agents@.len(),
                pointed(out@) == before + agents@.take(a as int),
            decreases agents@.len() - a,
        {
            let ghost so_far = pointed(out@);
            out.push(&agents[a]);
            assert(pointed(out@) =~= so_far.push(agents@[a as int]));
            assert(pointed(out@) =~= before + agents@.take(a + 1));
            a = a + 1;
        }
        assert(agents@.take(agents@.len() as int) =~= agents@);
        assert(days@.take(d + 1).drop_last() =~= days@.take(d as int));
        d = d + 1;
    }
    assert(days@.take(days@.len() as int) =~= days@);
    out
}

proof fn lemma_models_of_agents<M>(days: Seq<SummaryDay<M>>)
    ensures
        agents_models(agents_of(days)) == models_of(days),
    decreases days.len(),
{
    if days.len() > 0 {
        lemma_models_of_agents(days.drop_last());
        lemma_agents_models_add(agents_of(days.drop_last()), days.last().agents@);
    }
}

proof fn lemma_agents_models_add<M>(a: Seq<SummaryAgent<M>>, b: Seq<SummaryAgent<M>>)
    ensures
        agents_models(a + b) == agents_models(a) + agents_models(b),
    decreases b.len(),
{
    if b.len() == 0 {
        assert(a + b =~= a);
        assert(agents_models(a) + agents_models(b) =~= agents_models(a));
    } else {
        lemma_agents_models_add(a, b.drop_last());
        assert((a + b).drop_last() =~= a + b.drop_last());
        assert(agents_models(a + b) =~= agents_models(a) + agents_models(b));
    }
}

/// The models of all days, in order.
fn all_models<'a>(days: &'a Vec<SummaryDay<String>>) -> (out: Vec<&'a SummaryModel<String>>)
    ensures
        pointed(out@) == models_of(days@),
{
    let agents = all_agents(days);
    let ghost all = pointed(agents@);
    let mut out: Vec<&'a SummaryModel<String>> = Vec::new();
    let mut a: usize = 0;
    assert(all.take(0) =~= Seq::empty());
    assert(pointed(out@) =~= Seq::empty());
    while a < agents.len()
        invariant
            a <= agents@.len(),
            all == pointed(agents@),
            pointed(out@) == agents_models(all.take(a as int)),
        decreases agents@.len() - a,
    {
        push_models(&mut out, agents[a]);
        assert(all.take(a + 1).drop_last() =~= all.take(a as int));
        assert(all.take(a + 1).last() == *agents@[a as int]);
        a = a + 1;
    }
    assert(all.take(all.len() as int) =~= all);
    proof {
        lemma_models_of_agents(days@);
    }
    out
}

proof fn lemma_largest_push(numbers: Seq<nat>, n: nat)
    ensures
        largest(numbers.push(n)) == (if largest(numbers) < n {
            n
        } else {
            largest(numbers)
        }),
{
    assert(numbers.push(n).drop_last() =~= numbers);
}

proof fn lemma_largest_add(a: Seq<nat>, b: Seq<nat>)
    ensures
        largest(a + b) == (if largest(a) < largest(b) {
            largest(b)
        } else {
            largest(a)
        }),
    decreases b.len(),
{
    if b.len() == 0 {
        assert(a + b =~= a);
    } else {
        lemma_largest_add(a, b.drop_last());
        assert((a + b).drop_last() =~= a + b.drop_last());
    }
}

fn larger(a: usize, b: usize) -> (c: usize)
    ensures
        c == (if a < b {
            b
        } else {
            a
        }),
{
    if a < b {
        b
    } else {
        a
    }
}

fn clamp(n: usize, low: usize, high: usize) -> (out: usize)
    ensures
        out == clamped(n as nat, low as nat, high as nat),
{
    if n < low {
        low
    } else if n > high {
        high
    } else {
        n
    }
}

fn remaining(width: usize, used: usize, more: usize) -> (out: usize)
    ensures
        out == left_of(width as nat, used as nat + more as nat),
{
    if used >= width || more >= width - used {
        0
    } else {
        width - used - more
    }
}

fn input_cell(tokens: u64) -> (out: String)
    ensures
        out@ == input_text(tokens),
{
    let figure = short_tokens(tokens);
    concat2("↑", figure.as_str())
}

fn output_cell(tokens: u64) -> (out: String)
    ensures
        out@ == output_text(tokens),
{
    let figure = short_tokens(tokens);
    concat2("↓", figure.as_str())
}

/// The widest amount of all.
fn widest_amount(
    models: &Vec<&SummaryModel<String>>,
    agents: &Vec<&SummaryAgent<String>>,
    days: &Vec<SummaryDay<String>>,
    grand: &str,
) -> (out: usize)
    requires
        pointed(models@) == models_of(days@),
        pointed(agents@) == agents_of(days@),
    ensures
        out == largest(sizes(amounts(days@, grand@))),
{
    let ghost model_costs = models_of(days@).map_values(|m: SummaryModel<String>| m.cost@);
    let ghost agent_costs = agents_of(days@).map_values(|a: SummaryAgent<String>| a.total_cost@);
    let ghost day_costs = days@.map_values(|d: SummaryDay<String>| d.total_cost@);
    let mut of_models: usize = 0;
    let mut i: usize = 0;
    assert(sizes(model_costs).take(0) =~= Seq::empty());
    while i < models.len()
        invariant
            i <= models@.len(),
            pointed(models@) == models_of(days@),
            model_costs == models_of(days@).map_values(|m: SummaryModel<String>| m.cost@),
            of_models == largest(sizes(model_costs).take(i as int)),
        decreases models@.len() - i,
    {
        assert(pointed(models@)[i as int] == *models@[i as int]);
        assert(model_costs[i as int] == models@[i as int].cost@);
        proof {
            lemma_largest_push(sizes(model_costs).take(i as int), sizes(model_costs)[i as int]);
            assert(sizes(model_costs).take(i + 1) =~= sizes(model_costs).take(i as int).push(
                sizes(model_costs)[i as int],
            ));
        }
        of_models = larger(of_models, byte_length(models[i].cost.as_str()));
        i = i + 1;
    }
    let mut of_agents: usize = 0;
    let mut j: usize = 0;
    assert(sizes(agent_costs).take(0) =~= Seq::empty());
    while j < agents.len()
        invariant
            j <= agents@.len(),
            pointed(agents@) == agents_of(days@),
            agent_costs == agents_of(days@).map_values(
                |a: SummaryAgent<String>| a.total_cost@,
            ),
            of_agents == largest(sizes(agent_costs).take(j as int)),
        decreases agents@.len() - j,
    {
        assert(pointed(agents@)[j as int] == *agents@[j as int]);
        assert(agent_costs[j as int] == agents@[j as int].total_cost@);
        proof {
            lemma_largest_push(sizes(agent_costs).take(j as int), sizes(agent_costs)[j as int]);
            assert(sizes(agent_costs).take(j + 1) =~= sizes(agent_costs).take(j as int).push(
                sizes(agent_costs)[j as int],
            ));
        }
        of_agents = larger(of_agents, byte_length(agents[j].total_cost.as_str()));
        j = j + 1;
    }
    let mut of_days: usize = 0;
    let mut k: usize = 0;
    assert(sizes(day_costs).take(0) =~= Seq::empty());
    while k < days.len()
        invariant
            k <= days@.len(),
            day_costs == days@.map_values(|d: SummaryDay<String>| d.total_cost@),
            of_days == largest(sizes(day_costs).take(k as int)),
        decreases days@.len() - k,
    {
        proof {
            lemma_largest_push(sizes(day_costs).take(k as int), sizes(day_costs)[k as int]);
            assert(sizes(day_costs).take(k + 1) =~= sizes(day_costs).take(k as int).push(
                sizes(day_costs)[k as int],
            ));
        }
        of_days = larger(of_days, byte_length(days[k].total_cost.as_str()));
        k = k + 1;
    }
    proof {
        let m = sizes(model_costs);
        let a = sizes(agent_costs);
        let d = sizes(day_costs);
        assert(m.take(m.len() as int) =~= m);
        assert(a.take(a.len() as int) =~= a);
        assert(d.take(d.len() as int) =~= d);
        lemma_largest_add(m, a);
        lemma_largest_add(m + a, d);
        lemma_largest_push(m + a + d, byte_len(grand@));
        assert(sizes(amounts(days@, grand@)) =~= (m + a + d).push(byte_len(grand@)));
    }
    larger(larger(larger(of_models, of_agents), of_days), byte_length(grand))
}

/// The columns of a summary.
pub fn summary_grid(days: &Vec<SummaryDay<String>>, grand: &str, width: usize) -> (out: Grid)
    ensures
        out == grid(days@, grand@, width as nat),
{
    let models = all_models(days);
    let agents = all_agents(days);
    let ghost all = models_of(days@);
    let ghost names = all.map_values(|m: SummaryModel<String>| byte_len(m.name@));
    let ghost inputs = all.map_values(|m: SummaryModel<String>| byte_len(input_text(m.input)));
    let ghost outputs = all.map_values(|m: SummaryModel<String>| byte_len(output_text(m.output)));
    let mut widest_name: usize = 0;
    let mut widest_input: usize = 0;
    let mut widest_output: usize = 0;
    let mut i: usize = 0;
    assert(names.take(0) =~= Seq::empty());
    assert(inputs.take(0) =~= Seq::empty());
    assert(outputs.take(0) =~= Seq::empty());
    while i < models.len()
        invariant
            i <= models@.len(),
            pointed(models@) == all,
            names == all.map_values(|m: SummaryModel<String>| byte_len(m.name@)),
            inputs == all.map_values(|m: SummaryModel<String>| byte_len(input_text(m.input))),
            outputs == all.map_values(|m: SummaryModel<String>| byte_len(output_text(m.output))),
            widest_name == largest(names.take(i as int)),
            widest_input == largest(inputs.take(i as int)),
            widest_output == largest(outputs.take(i as int)),
        decreases models@.len() - i,
    {
        assert(all[i as int] == *models@[i as int]);
        proof {
            lemma_largest_push(names.take(i as int), names[i as int]);
            lemma_largest_push(inputs.take(i as int), inputs[i as int]);
            lemma_largest_push(outputs.take(i as int), outputs[i as int]);
            assert(names.take(i + 1) =~= names.take(i as int).push(names[i as int]));
            assert(inputs.take(i + 1) =~= inputs.take(i as int).push(inputs[i as int]));
            assert(outputs.take(i + 1) =~= outputs.take(i as int).push(outputs[i as int]));
        }
        let model = models[i];
        widest_name = larger(widest_name, byte_length(model.name.as_str()));
        widest_input = larger(widest_input, byte_length(input_cell(model.input).as_str()));
        widest_output = larger(widest_output, byte_length(output_cell(model.output).as_str()));
        i = i + 1;
    }
    assert(names.take(names.len() as int) =~= names);
    assert(inputs.take(inputs.len() as int) =~= inputs);
    assert(outputs.take(outputs.len() as int) =~= outputs);
    let line: usize = clamp(width, MIN_WIDTH, MAX_WIDTH);
    let name: usize = clamp(widest_name, 6, 28);
    let input: usize = clamp(widest_input, 4, 9);
    let output: usize = clamp(widest_output, 4, 9);
    let money: usize = clamp(widest_amount(&models, &agents, days, grand), 8, 13);
    Grid {
        width: line,
        name,
        input,
        output,
        money,
        cache: remaining(line, 10 + name + input + output + money, 0),
    }
}

fn draw_day(day: &SummaryDay<String>, g: &Grid) -> (line: String)
    ensures
        line@ == day_line(*day, *g),
{
    let mut line = concat2(" ", day.label.as_str());
    let free: usize = remaining(g.width, byte_length(line.as_str()), 1).saturating_sub(g.money);
    let dashes = repeat('─', larger(free, 3));
    line.append(dashes.as_str());
    line.append(" ");
    let money = align_right(day.total_cost.as_str(), g.money);
    line.append(money.as_str());
    line
}

fn draw_agent(agent: &SummaryAgent<String>, g: &Grid) -> (line: String)
    ensures
        line@ == agent_line(*agent, *g),
{
    let mut line = concat2("   ", agent.name.as_str());
    let free: usize = remaining(g.width, byte_length(agent.name.as_str()), 4).saturating_sub(
        g.money,
    );
    let dots = repeat('·', larger(free, 3));
    line.append(dots.as_str());
    line.append(" ");
    let money = align_right(agent.total_cost.as_str(), g.money);
    line.append(money.as_str());
    line
}

fn draw_model(model: &SummaryModel<String>, g: &Grid) -> (line: String)
    ensures
        line@ == model_line(*model, *g),
{
    let name = align_left(model.name.as_str(), g.name);
    let input = align_right(input_cell(model.input).as_str(), g.input);
    let output = align_right(output_cell(model.output).as_str(), g.output);
    let cache = cache_segment(model.cache_read, model.cache_write);
    let pad = repeat(' ', remaining(g.cache, byte_length(cache.as_str()), 0));
    let money = align_right(model.cost.as_str(), g.money);
    let mut line = concat3("      ", name.as_str(), " ");
    line.append(input.as_str());
    line.append(" ");
    line.append(output.as_str());
    line.append(" ");
    line.append(pad.as_str());
    line.append(cache.as_str());
    line.append(" ");
    line.append(money.as_str());
    line
}

fn draw_total(count: usize, tokens: u64, grand: &str, g: &Grid) -> (line: String)
    ensures
        line@ == total_line(count as nat, tokens as nat, grand@, *g),
{
    let days = number(count as u64);
    let figure = short_tokens(tokens);
    let mut meta = concat3(days.as_str(), " days · ", figure.as_str());
    meta.append(" tokens");
    let free: usize = remaining(g.width, byte_length(meta.as_str()), 10).saturating_sub(g.money);
    let dashes = repeat('─', larger(free, 3));
    let money = align_right(grand, g.money);
    let mut line = concat3("  TOTAL  ", meta.as_str(), " ");
    line.append(dashes.as_str());
    line.append(" ");
    line.append(money.as_str());
    line
}

fn push_line(lines: &mut Vec<String>, line: String)
    ensures
        texts(final(lines)@) == texts(old(lines)@).push(line@),
{
    lines.push(line);
    assert(texts(lines@) =~= texts(old(lines)@).push(line@));
}

fn push_agent(lines: &mut Vec<String>, agent: &SummaryAgent<String>, g: &Grid)
    ensures
        texts(final(lines)@) == texts(old(lines)@) + agent_block(*agent, *g),
{
    let ghost drawn = agent.models@.map_values(|m: SummaryModel<String>| model_line(m, *g));
    push_line(lines, draw_agent(agent, g));
    let ghost start = texts(lines@);
    let mut i: usize = 0;
    assert(start =~= start + drawn.take(0));
    while i < agent.models.len()
        invariant
            i <= agent.models@.len(),
            drawn == agent.models@.map_values(|m: SummaryModel<String>| model_line(m, *g)),
            texts(lines@) == start + drawn.take(i as int),
        decreases agent.models@.len() - i,
    {
        push_line(lines, draw_model(&agent.models[i], g));
        assert(start + drawn.take(i + 1) =~= (start + drawn.take(i as int)).push(drawn[i as int]));
        i = i + 1;
    }
    assert(texts(lines@) =~= texts(old(lines)@) + agent_block(*agent, *g));
}

fn push_day(lines: &mut Vec<String>, day: &SummaryDay<String>, g: &Grid)
    ensures
        texts(final(lines)@) == texts(old(lines)@) + day_block(*day, *g),
{
    push_line(lines, draw_day(day, g));
    let ghost start = texts(lines@);
    let agents = &day.agents;
    let mut i: usize = 0;
    assert(agents@.take(0) =~= Seq::empty());
    assert(start =~= start + agents_block(agents@.take(0), *g));
    while i < agents.len()
        invariant
            i <= agents@.len(),
            texts(lines@) == start + agents_block(agents@.take(i as int), *g),
        decreases agents@.len() - i,
    {
        let ghost before = texts(lines@);
        if i > 0 {
            push_line(lines, String::new());
        }
        push_agent(lines, &agents[i], g);
        proof {
            let grown = agents@.take(i + 1);
            assert(grown.drop_last() =~= agents@.take(i as int));
            reveal_strlit("");
            assert(""@ =~= Seq::<char>::empty());
            assert(texts(lines@) =~= start + agents_block(grown, *g));
        }
        i = i + 1;
    }
    assert(agents@.take(agents@.len() as int) =~= agents@);
    assert(texts(lines@) =~= texts(old(lines)@) + day_block(*day, *g));
}

proof fn lemma_tokens_grow<M>(models: Seq<SummaryModel<M>>, n: int)
    requires
        0 <= n <= models.len(),
    ensures
        tokens_of(models.take(n)) <= tokens_of(models),
    decreases models.len() - n,
{
    if n < models.len() {
        lemma_tokens_grow(models, n + 1);
        assert(models.take(n + 1).drop_last() =~= models.take(n));
    } else {
        assert(models.take(n) =~= models);
    }
}

/// All tokens of the summary together; `None` where they do not fit.
pub fn summary_tokens(days: &Vec<SummaryDay<String>>) -> (out: Option<u64>)
    ensures
        match out {
            Some(tokens) => tokens == tokens_of(models_of(days@)),
            None => tokens_of(models_of(days@)) > u64::MAX,
        },
{
    let models = all_models(days);
    let ghost all = models_of(days@);
    let mut sum: u64 = 0;
    let mut i: usize = 0;
    assert(all.take(0) =~= Seq::empty());
    while i < models.len()
        invariant
            i <= models@.len(),
            all == models_of(days@),
            all == pointed(models@),
            sum == tokens_of(all.take(i as int)),
        decreases models@.len() - i,
    {
        let m = models[i];
        let grown: u128 = sum as u128 + m.input as u128 + m.output as u128 + m.cache_read as u128
            + m.cache_write as u128;
        proof {
            assert(all[i as int] == *models@[i as int]);
            assert(all.take(i + 1).drop_last() =~= all.take(i as int));
            lemma_tokens_grow(all, i + 1);
        }
        if grown > u64::MAX as u128 {
            return None;
        }
        sum = grown as u64;
        i = i + 1;
    }
    assert(all.take(all.len() as int) =~= all);
    Some(sum)
}

/// The lines of a summary. `grand` is the rendered sum of the costs of the days.
pub fn summary_body_lines(
    days: &Vec<SummaryDay<String>>,
    grand: &str,
    width: usize,
) -> (out: Vec<String>)
    requires
        tokens_of(models_of(days@)) <= u64::MAX,
    ensures
        texts(out@) == summary_lines(days@, grand@, width as nat),
{
    let g = summary_grid(days, grand, width);
    let mut lines: Vec<String> = Vec::new();
    let mut i: usize = 0;
    assert(days@.take(0) =~= Seq::empty());
    assert(texts(lines@) =~= days_block(days@.take(0), g));
    while i < days.len()
        invariant
            i <= days@.len(),
            texts(lines@) == days_block(days@.take(i as int), g),
        decreases days@.len() - i,
    {
        if i > 0 {
            push_line(&mut lines, String::new());
        }
        push_day(&mut lines, &days[i], &g);
        proof {
            let grown = days@.take(i + 1);
            assert(grown.drop_last() =~= days@.take(i as int));
            reveal_strlit("");
            assert(""@ =~= Seq::<char>::empty());
            assert(texts(lines@) =~= days_block(grown, g));
        }
        i = i + 1;
    }
    assert(days@.take(days@.len() as int) =~= days@);
    push_line(&mut lines, String::new());
    if let Some(tokens) = summary_tokens(days) {
        push_line(&mut lines, draw_total(days.len(), tokens, grand, &g));
    }
    proof {
        reveal_strlit("");
        assert(""@ =~= Seq::<char>::empty());
        assert(texts(lines@) =~= summary_lines(days@, grand@, width as nat));
    }
    lines
}

/// How a line of the summary is styled.
#[derive(Debug, Clone, Copy, PartialEq, Eq, Structural)]
pub enum LineStyle {
    Plain,
    Dim,
    Bold,
}

/// How a line of the summary is styled: the lines of days are dim, the total is bold, and the
/// others are plain.
pub open spec fn style_of(line: Seq<char>) -> LineStyle {
    if " "@.is_prefix_of(line) && occurs_in("─"@, line) && !occurs_in("↑"@, line) && !occurs_in(
        "TOTAL"@,
        line,
    ) {
        LineStyle::Dim
    } else if "TOTAL"@.is_prefix_of(without_leading_white(line)) || (occurs_in("──"@, line)
        && !occurs_in("↑"@, line)) {
        LineStyle::Bold
    } else {
        LineStyle::Plain
    }
}

/// How a line of the summary is styled.
pub fn line_style(line: &str) -> (out: LineStyle)
    ensures
        out == style_of(line@),
{
    if starts_with(line, " ") && contains_text(line, "─") && !contains_text(line, "↑")
        && !contains_text(line, "TOTAL") {
        LineStyle::Dim
    } else {
        let start = trim_start(line);
        if starts_with(start.as_str(), "TOTAL") || (contains_text(line, "──") && !contains_text(
            line,
            "↑",
        )) {
            LineStyle::Bold
        } else {
            LineStyle::Plain
        }
    }
}

} // verus!
