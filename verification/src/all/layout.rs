//! What holds of the layout of every summary.

use vstd::prelude::*;
use vstd::string::*;
use vstd::utf8::*;
use crate::all::summary::{
    agent_block, agent_line, agents_block, agents_models, agents_of, amounts, cache_text, clamped,
    day_block, day_line, days_block, grid, input_text, largest, model_line, models_of, output_text,
    rule, sizes, summary_lines, tokens_of, total_line, total_text, Grid, SummaryAgent, SummaryDay,
    SummaryModel,
};
use crate::figures::short_figure;
use crate::text::{byte_len, decimal, lemma_byte_len, repeated, right_aligned};

verus! {

/// Every character of the text takes one byte.
pub open spec fn one_byte_each(s: Seq<char>) -> bool {
    forall|i: int| 0 <= i < s.len() ==> (#[trigger] s[i] as u32) < 0x80
}

/// A text of characters of one byte has as many bytes as characters.
pub proof fn lemma_one_byte_each(s: Seq<char>)
    requires
        one_byte_each(s),
    ensures
        byte_len(s) == s.len(),
    decreases s.len(),
{
    if s.len() > 0 {
        assert forall|i: int| 0 <= i < s.drop_first().len() implies (
        #[trigger] s.drop_first()[i] as u32) < 0x80 by {
            assert(s.drop_first()[i] == s[i + 1]);
        }
        lemma_one_byte_each(s.drop_first());
    }
}

proof fn lemma_byte_len_add(a: Seq<char>, b: Seq<char>)
    ensures
        byte_len(a + b) == byte_len(a) + byte_len(b),
    decreases a.len(),
{
    if a.len() == 0 {
        assert(a + b =~= b);
    } else {
        lemma_byte_len_add(a.drop_first(), b);
        assert((a + b).drop_first() =~= a.drop_first() + b);
    }
}

proof fn lemma_decimal(n: nat)
    ensures
        one_byte_each(decimal(n)),
    decreases n,
{
    if n >= 10 {
        lemma_decimal(n / 10);
    }
}

proof fn lemma_figure(n: nat)
    ensures
        one_byte_each(short_figure(n)),
{
    assert forall|m: nat| one_byte_each(#[trigger] decimal(m)) by {
        lemma_decimal(m);
    }
}

proof fn lemma_largest_bounds(numbers: Seq<nat>, i: int)
    requires
        0 <= i < numbers.len(),
    ensures
        numbers[i] <= largest(numbers),
    decreases numbers.len(),
{
    if i < numbers.len() - 1 {
        lemma_largest_bounds(numbers.drop_last(), i);
    }
}

/// The day's line has room for its texts.
pub open spec fn day_fits(day: SummaryDay<String>, g: Grid) -> bool {
    &&& one_byte_each(day.label@)
    &&& day.label@.len() + 5 + g.money <= g.width
    &&& day.total_cost@.len() <= g.money
}

/// The agent's line has room for its texts.
pub open spec fn agent_fits(agent: SummaryAgent<String>, g: Grid) -> bool {
    &&& one_byte_each(agent.name@)
    &&& agent.name@.len() + 7 + g.money <= g.width
    &&& agent.total_cost@.len() <= g.money
}

/// The model's line has room for its texts.
pub open spec fn model_fits(model: SummaryModel<String>, g: Grid) -> bool {
    &&& model.name@.len() <= g.name
    &&& input_text(model.input).len() <= g.input
    &&& output_text(model.output).len() <= g.output
    &&& cache_text(model.cache_read, model.cache_write).len() <= g.cache
    &&& model.cost@.len() <= g.money
}

/// The columns of a model's line fill the line.
pub open spec fn columns_fill(g: Grid) -> bool {
    10 + g.name + g.input + g.output + g.money + g.cache == g.width
}

proof fn lemma_day_line(day: SummaryDay<String>, g: Grid)
    requires
        day_fits(day, g),
    ensures
        day_line(day, g).len() == g.width,
{
    reveal_strlit(" ");
    let label = " "@ + day.label@;
    assert(one_byte_each(label));
    lemma_one_byte_each(label);
}

proof fn lemma_agent_line(agent: SummaryAgent<String>, g: Grid)
    requires
        agent_fits(agent, g),
    ensures
        agent_line(agent, g).len() == g.width,
{
    reveal_strlit(" ");
    reveal_strlit("   ");
    lemma_one_byte_each(agent.name@);
}

proof fn lemma_cache_text(read: u64, creation: u64)
    ensures
        one_byte_each(cache_text(read, creation)),
{
    reveal_strlit("cached +");
    reveal_strlit("cached ");
    reveal_strlit(" / ");
    lemma_figure(read as nat);
    lemma_figure(creation as nat);
}

proof fn lemma_model_line(model: SummaryModel<String>, g: Grid)
    requires
        model_fits(model, g),
        columns_fill(g),
    ensures
        model_line(model, g).len() == g.width,
{
    reveal_strlit(" ");
    reveal_strlit("      ");
    let cache = cache_text(model.cache_read, model.cache_write);
    lemma_cache_text(model.cache_read, model.cache_write);
    lemma_one_byte_each(cache);
}

proof fn lemma_total_line(count: nat, tokens: nat, grand: Seq<char>, g: Grid)
    requires
        total_text(count, tokens).len() + 14 + g.money <= g.width,
        grand.len() <= g.money,
    ensures
        total_line(count, tokens, grand, g).len() == g.width,
{
    reveal_strlit(" ");
    reveal_strlit("  TOTAL  ");
    reveal_strlit(" days · ");
    reveal_strlit(" tokens");
    let days = decimal(count);
    let figure = short_figure(tokens);
    lemma_decimal(count);
    lemma_figure(tokens);
    lemma_one_byte_each(days);
    lemma_one_byte_each(figure);
    lemma_one_byte_each(" tokens"@);
    let word = " days · "@;
    assert(word =~= seq![' ', 'd', 'a', 'y', 's', ' ', '·', ' ']);
    assert(byte_len(word) == 9) by {
        reveal_with_fuel(encode_utf8, 9);
    }
    lemma_byte_len_add(days, word);
    lemma_byte_len_add(days + word, figure);
    lemma_byte_len_add(days + word + figure, " tokens"@);
}

/// A line is empty or exactly as wide as the grid.
pub open spec fn full_or_empty(lines: Seq<Seq<char>>, g: Grid) -> bool {
    forall|i: int|
        0 <= i < lines.len() ==> (#[trigger] lines[i]).len() == 0 || lines[i].len() == g.width
}

proof fn lemma_agents_block(agents: Seq<SummaryAgent<String>>, g: Grid)
    requires
        columns_fill(g),
        forall|i: int| 0 <= i < agents.len() ==> agent_fits(#[trigger] agents[i], g),
        forall|i: int|
            0 <= i < agents_models(agents).len() ==> model_fits(
                #[trigger] agents_models(agents)[i],
                g,
            ),
    ensures
        full_or_empty(agents_block(agents, g), g),
    decreases agents.len(),
{
    reveal_strlit("");
    if agents.len() > 0 {
        let before = agents.drop_last();
        let last = agents.last();
        let all = agents_models(agents);
        let n = agents_models(before).len() as int;
        assert forall|i: int| 0 <= i < agents_models(before).len() implies model_fits(
            #[trigger] agents_models(before)[i],
            g,
        ) by {
            assert(all[i] == agents_models(before)[i]);
        }
        lemma_agents_block(before, g);
        lemma_agent_line(last, g);
        assert forall|i: int| 0 <= i < agent_block(last, g).len() implies (
        #[trigger] agent_block(last, g)[i]).len() == g.width by {
            if i > 0 {
                assert(all[n + i - 1] == last.models@[i - 1]);
                lemma_model_line(last.models@[i - 1], g);
            }
        }
        assert forall|i: int| 0 <= i < agents_block(agents, g).len() implies (
        #[trigger] agents_block(agents, g)[i]).len() == 0 || agents_block(agents, g)[i].len()
            == g.width by {
            let lines = agents_block(agents, g);
            if agents.len() == 1 {
                assert(lines[i] == agent_block(last, g)[i]);
            } else {
                let m = agents_block(before, g).len() as int;
                if i < m {
                    assert(lines[i] == agents_block(before, g)[i]);
                } else if i > m {
                    assert(lines[i] == agent_block(last, g)[i - m - 1]);
                }
            }
        }
    }
}

proof fn lemma_days_block(days: Seq<SummaryDay<String>>, g: Grid)
    requires
        columns_fill(g),
        forall|i: int| 0 <= i < days.len() ==> day_fits(#[trigger] days[i], g),
        forall|i: int| 0 <= i < agents_of(days).len() ==> agent_fits(#[trigger] agents_of(days)[i], g),
        forall|i: int| 0 <= i < models_of(days).len() ==> model_fits(#[trigger] models_of(days)[i], g),
    ensures
        full_or_empty(days_block(days, g), g),
    decreases days.len(),
{
    reveal_strlit("");
    if days.len() > 0 {
        let before = days.drop_last();
        let last = days.last();
        let agents = agents_of(days);
        let models = models_of(days);
        assert forall|i: int| 0 <= i < agents_of(before).len() implies agent_fits(
            #[trigger] agents_of(before)[i],
            g,
        ) by {
            assert(agents[i] == agents_of(before)[i]);
        }
        assert forall|i: int| 0 <= i < models_of(before).len() implies model_fits(
            #[trigger] models_of(before)[i],
            g,
        ) by {
            assert(models[i] == models_of(before)[i]);
        }
        lemma_days_block(before, g);
        assert forall|i: int| 0 <= i < last.agents@.len() implies agent_fits(
            #[trigger] last.agents@[i],
            g,
        ) by {
            assert(agents[agents_of(before).len() + i] == last.agents@[i]);
        }
        assert forall|i: int| 0 <= i < agents_models(last.agents@).len() implies model_fits(
            #[trigger] agents_models(last.agents@)[i],
            g,
        ) by {
            assert(models[models_of(before).len() + i] == agents_models(last.agents@)[i]);
        }
        lemma_agents_block(last.agents@, g);
        lemma_day_line(last, g);
        assert forall|i: int| 0 <= i < days_block(days, g).len() implies (
        #[trigger] days_block(days, g)[i]).len() == 0 || days_block(days, g)[i].len()
            == g.width by {
            let lines = days_block(days, g);
            let block = day_block(last, g);
            let m = days_block(before, g).len() as int;
            let at = if days.len() == 1 {
                i
            } else {
                i - m - 1
            };
            if days.len() > 1 && i < m {
                assert(lines[i] == days_block(before, g)[i]);
            } else if at >= 0 {
                assert(lines[i] == block[at]);
                if at > 0 {
                    assert(block[at] == agents_block(last.agents@, g)[at - 1]);
                }
            }
        }
    }
}

/// The texts of a summary fit a grid: no amount is longer than thirteen bytes, no model's name
/// is longer than twenty-eight, no token figure has more than eight characters, cache traffic
/// fits its column, and labels of days and names of agents leave room for a rule.
pub open spec fn summary_fits(
    days: Seq<SummaryDay<String>>,
    grand: Seq<char>,
    width: nat,
) -> bool {
    let g = grid(days, grand, width);
    let models = models_of(days);
    let agents = agents_of(days);
    let money = amounts(days, grand);
    &&& forall|i: int| 0 <= i < money.len() ==> byte_len(#[trigger] money[i]) <= 13
    &&& forall|i: int|
        0 <= i < models.len() ==> {
            &&& byte_len((#[trigger] models[i]).name@) <= 28
            &&& short_figure(models[i].input as nat).len() <= 8
            &&& short_figure(models[i].output as nat).len() <= 8
            &&& cache_text(models[i].cache_read, models[i].cache_write).len() <= g.cache
        }
    &&& forall|i: int|
        0 <= i < agents.len() ==> one_byte_each((#[trigger] agents[i]).name@)
            && agents[i].name@.len() + 7 + g.money <= g.width
    &&& forall|i: int|
        0 <= i < days.len() ==> one_byte_each((#[trigger] days[i]).label@)
            && days[i].label@.len() + 5 + g.money <= g.width
    &&& total_text(days.len(), tokens_of(models)).len() + 14 + g.money <= g.width
}

proof fn lemma_amount(days: Seq<SummaryDay<String>>, grand: Seq<char>, width: nat, i: int)
    requires
        summary_fits(days, grand, width),
        0 <= i < amounts(days, grand).len(),
    ensures
        amounts(days, grand)[i].len() <= grid(days, grand, width).money,
{
    let money = amounts(days, grand);
    lemma_largest_bounds(sizes(money), i);
    assert(sizes(money)[i] == byte_len(money[i]));
    lemma_byte_len(money[i]);
}

proof fn lemma_model_fits(days: Seq<SummaryDay<String>>, grand: Seq<char>, width: nat, i: int)
    requires
        summary_fits(days, grand, width),
        0 <= i < models_of(days).len(),
    ensures
        model_fits(models_of(days)[i], grid(days, grand, width)),
{
    let models = models_of(days);
    let m = models[i];
    let names = models.map_values(|m: SummaryModel<String>| byte_len(m.name@));
    let inputs = models.map_values(|m: SummaryModel<String>| byte_len(input_text(m.input)));
    let outputs = models.map_values(|m: SummaryModel<String>| byte_len(output_text(m.output)));
    lemma_largest_bounds(names, i);
    lemma_largest_bounds(inputs, i);
    lemma_largest_bounds(outputs, i);
    assert(names[i] == byte_len(m.name@));
    assert(inputs[i] == byte_len(input_text(m.input)));
    assert(outputs[i] == byte_len(output_text(m.output)));
    lemma_byte_len(m.name@);
    lemma_byte_len(input_text(m.input));
    lemma_byte_len(output_text(m.output));
    reveal_strlit("↑");
    reveal_strlit("↓");
    assert(amounts(days, grand)[i] == m.cost@);
    lemma_amount(days, grand, width, i);
}

/// Every line of a summary whose texts fit is empty or exactly as wide as the summary, so that
/// any column repeats at the same place down the screen.
pub proof fn every_line_is_full(days: Seq<SummaryDay<String>>, grand: Seq<char>, width: nat)
    requires
        summary_fits(days, grand, width),
    ensures
        forall|i: int|
            0 <= i < summary_lines(days, grand, width).len() ==> {
                let line = #[trigger] summary_lines(days, grand, width)[i];
                line.len() == 0 || line.len() == clamped(width, 72, 104)
            },
{
    let g = grid(days, grand, width);
    let money = amounts(days, grand);
    let models = models_of(days);
    let agents = agents_of(days);
    assert(columns_fill(g));
    assert forall|i: int| 0 <= i < models.len() implies model_fits(#[trigger] models[i], g) by {
        lemma_model_fits(days, grand, width, i);
    }
    assert forall|i: int| 0 <= i < agents.len() implies agent_fits(#[trigger] agents[i], g) by {
        assert(money[models.len() + i] == agents[i].total_cost@);
        lemma_amount(days, grand, width, models.len() + i);
    }
    assert forall|i: int| 0 <= i < days.len() implies day_fits(#[trigger] days[i], g) by {
        assert(money[models.len() + agents.len() + i] == days[i].total_cost@);
        lemma_amount(days, grand, width, models.len() + agents.len() + i);
    }
    lemma_days_block(days, g);
    assert(money[money.len() - 1] == grand);
    lemma_amount(days, grand, width, money.len() - 1);
    lemma_total_line(days.len(), tokens_of(models), grand, g);
    reveal_strlit("");
    assert forall|i: int| 0 <= i < summary_lines(days, grand, width).len() implies ({
        let line = #[trigger] summary_lines(days, grand, width)[i];
        line.len() == 0 || line.len() == clamped(width, 72, 104)
    }) by {
        if i < days_block(days, g).len() {
            assert(summary_lines(days, grand, width)[i] == days_block(days, g)[i]);
        }
    }
}

/// The line ends with one of the amounts.
pub open spec fn ends_with_one(line: Seq<char>, money: Seq<Seq<char>>) -> bool {
    exists|k: int| 0 <= k < money.len() && (#[trigger] money[k]).is_suffix_of(line)
}

proof fn lemma_on_the_rail(before: Seq<char>, money: Seq<Seq<char>>, k: int, width: nat)
    requires
        0 <= k < money.len(),
    ensures
        ends_with_one(before + right_aligned(money[k], width), money),
{
    let line = before + right_aligned(money[k], width);
    assert(line.subrange(line.len() - money[k].len(), line.len() as int) =~= money[k]);
    assert(money[k].is_suffix_of(line));
}

proof fn lemma_agents_end(agents: Seq<SummaryAgent<String>>, money: Seq<Seq<char>>, g: Grid)
    requires
        forall|i: int| 0 <= i < agents.len() ==> money.contains((#[trigger] agents[i]).total_cost@),
        forall|i: int|
            0 <= i < agents_models(agents).len() ==> money.contains(
                (#[trigger] agents_models(agents)[i]).cost@,
            ),
    ensures
        forall|i: int|
            0 <= i < agents_block(agents, g).len() ==> (#[trigger] agents_block(
                agents,
                g,
            )[i]).len() == 0 || ends_with_one(agents_block(agents, g)[i], money),
    decreases agents.len(),
{
    reveal_strlit("");
    if agents.len() > 0 {
        let before = agents.drop_last();
        let last = agents.last();
        let all = agents_models(agents);
        let n = agents_models(before).len() as int;
        assert forall|i: int| 0 <= i < agents_models(before).len() implies money.contains(
            (#[trigger] agents_models(before)[i]).cost@,
        ) by {
            assert(all[i] == agents_models(before)[i]);
        }
        lemma_agents_end(before, money, g);
        let block = agent_block(last, g);
        assert forall|i: int| 0 <= i < block.len() implies ends_with_one(
            #[trigger] block[i],
            money,
        ) by {
            if i == 0 {
                let k = money.index_of(last.total_cost@);
                let leader = rule(g.width as nat, 3 + byte_len(last.name@) + 1 + g.money as nat);
                lemma_on_the_rail(
                    "   "@ + last.name@ + repeated('·', leader) + " "@,
                    money,
                    k,
                    g.money as nat,
                );
            } else {
                let m = last.models@[i - 1];
                assert(all[n + i - 1] == m);
                let k = money.index_of(m.cost@);
                let line = model_line(m, g);
                let tail = right_aligned(m.cost@, g.money as nat);
                let head = line.take(line.len() - tail.len());
                assert(line =~= head + tail);
                lemma_on_the_rail(head, money, k, g.money as nat);
            }
        }
        assert forall|i: int| 0 <= i < agents_block(agents, g).len() implies (
        #[trigger] agents_block(agents, g)[i]).len() == 0 || ends_with_one(
            agents_block(agents, g)[i],
            money,
        ) by {
            let lines = agents_block(agents, g);
            let m = agents_block(before, g).len() as int;
            if agents.len() == 1 {
                assert(lines[i] == block[i]);
            } else if i < m {
                assert(lines[i] == agents_block(before, g)[i]);
            } else if i > m {
                assert(lines[i] == block[i - m - 1]);
            }
        }
    }
}

proof fn lemma_days_end(days: Seq<SummaryDay<String>>, money: Seq<Seq<char>>, g: Grid)
    requires
        forall|i: int| 0 <= i < days.len() ==> money.contains((#[trigger] days[i]).total_cost@),
        forall|i: int|
            0 <= i < agents_of(days).len() ==> money.contains(
                (#[trigger] agents_of(days)[i]).total_cost@,
            ),
        forall|i: int|
            0 <= i < models_of(days).len() ==> money.contains((#[trigger] models_of(days)[i]).cost@),
    ensures
        forall|i: int|
            0 <= i < days_block(days, g).len() ==> (#[trigger] days_block(days, g)[i]).len() == 0
                || ends_with_one(days_block(days, g)[i], money),
    decreases days.len(),
{
    reveal_strlit("");
    if days.len() > 0 {
        let before = days.drop_last();
        let last = days.last();
        let agents = agents_of(days);
        let models = models_of(days);
        assert forall|i: int| 0 <= i < agents_of(before).len() implies money.contains(
            (#[trigger] agents_of(before)[i]).total_cost@,
        ) by {
            assert(agents[i] == agents_of(before)[i]);
        }
        assert forall|i: int| 0 <= i < models_of(before).len() implies money.contains(
            (#[trigger] models_of(before)[i]).cost@,
        ) by {
            assert(models[i] == models_of(before)[i]);
        }
        lemma_days_end(before, money, g);
        assert forall|i: int| 0 <= i < last.agents@.len() implies money.contains(
            (#[trigger] last.agents@[i]).total_cost@,
        ) by {
            assert(agents[agents_of(before).len() + i] == last.agents@[i]);
        }
        assert forall|i: int| 0 <= i < agents_models(last.agents@).len() implies money.contains(
            (#[trigger] agents_models(last.agents@)[i]).cost@,
        ) by {
            assert(models[models_of(before).len() + i] == agents_models(last.agents@)[i]);
        }
        lemma_agents_end(last.agents@, money, g);
        let header = day_line(last, g);
        let tail = right_aligned(last.total_cost@, g.money as nat);
        let head = header.take(header.len() - tail.len());
        assert(header =~= head + tail);
        lemma_on_the_rail(head, money, money.index_of(last.total_cost@), g.money as nat);
        assert forall|i: int| 0 <= i < days_block(days, g).len() implies (
        #[trigger] days_block(days, g)[i]).len() == 0 || ends_with_one(
            days_block(days, g)[i],
            money,
        ) by {
            let lines = days_block(days, g);
            let block = day_block(last, g);
            let m = days_block(before, g).len() as int;
            let at = if days.len() == 1 {
                i
            } else {
                i - m - 1
            };
            if days.len() > 1 && i < m {
                assert(lines[i] == days_block(before, g)[i]);
            } else if at >= 0 {
                assert(lines[i] == block[at]);
                if at > 0 {
                    assert(block[at] == agents_block(last.agents@, g)[at - 1]);
                }
            }
        }
    }
}

/// Money sits flush on the rail: every line of a summary is empty or ends with an amount, with
/// nothing behind it.
pub proof fn every_line_ends_with_an_amount(
    days: Seq<SummaryDay<String>>,
    grand: Seq<char>,
    width: nat,
)
    ensures
        forall|i: int|
            0 <= i < summary_lines(days, grand, width).len() ==> (#[trigger] summary_lines(
                days,
                grand,
                width,
            )[i]).len() == 0 || ends_with_one(
                summary_lines(days, grand, width)[i],
                amounts(days, grand),
            ),
{
    let g = grid(days, grand, width);
    let money = amounts(days, grand);
    let models = models_of(days);
    let agents = agents_of(days);
    assert forall|i: int| 0 <= i < models.len() implies money.contains(
        (#[trigger] models[i]).cost@,
    ) by {
        assert(money[i] == models[i].cost@);
    }
    assert forall|i: int| 0 <= i < agents.len() implies money.contains(
        (#[trigger] agents[i]).total_cost@,
    ) by {
        assert(money[models.len() + i] == agents[i].total_cost@);
    }
    assert forall|i: int| 0 <= i < days.len() implies money.contains(
        (#[trigger] days[i]).total_cost@,
    ) by {
        assert(money[models.len() + agents.len() + i] == days[i].total_cost@);
    }
    lemma_days_end(days, money, g);
    let total = total_line(days.len(), tokens_of(models), grand, g);
    let tail = right_aligned(grand, g.money as nat);
    let head = total.take(total.len() - tail.len());
    assert(total =~= head + tail);
    assert(money[money.len() - 1] == grand);
    lemma_on_the_rail(head, money, money.len() - 1, g.money as nat);
    reveal_strlit("");
    assert forall|i: int| 0 <= i < summary_lines(days, grand, width).len() implies (
    #[trigger] summary_lines(days, grand, width)[i]).len() == 0 || ends_with_one(
        summary_lines(days, grand, width)[i],
        money,
    ) by {
        if i < days_block(days, g).len() {
            assert(summary_lines(days, grand, width)[i] == days_block(days, g)[i]);
        }
    }
}

/// In a summary whose texts fit, the input column and the output column of every model's line
/// stand at the same places.
pub proof fn token_columns_stand_on_their_rails(
    days: Seq<SummaryDay<String>>,
    grand: Seq<char>,
    width: nat,
    i: int,
)
    requires
        summary_fits(days, grand, width),
        0 <= i < models_of(days).len(),
    ensures
        ({
            let g = grid(days, grand, width);
            let model = models_of(days)[i];
            let line = model_line(model, g);
            let input_at = 7 + g.name as int;
            let output_at = input_at + g.input as int + 1;
            &&& line.subrange(input_at, input_at + g.input as int) == right_aligned(
                input_text(model.input),
                g.input as nat,
            )
            &&& line.subrange(output_at, output_at + g.output as int) == right_aligned(
                output_text(model.output),
                g.output as nat,
            )
        }),
{
    let g = grid(days, grand, width);
    let model = models_of(days)[i];
    let line = model_line(model, g);
    let input_at = 7 + g.name as int;
    let output_at = input_at + g.input as int + 1;
    lemma_model_fits(days, grand, width, i);
    reveal_strlit(" ");
    reveal_strlit("      ");
    assert(line.subrange(input_at, input_at + g.input as int) =~= right_aligned(
        input_text(model.input),
        g.input as nat,
    ));
    assert(line.subrange(output_at, output_at + g.output as int) =~= right_aligned(
        output_text(model.output),
        g.output as nat,
    ));
}

} // verus!
