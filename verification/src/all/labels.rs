//! Names in the unified reports: of agents, models, sections and columns.

use vstd::prelude::*;
use vstd::string::*;
use crate::all::rows::{AgentReportKind, AllRow};
use crate::names::{add_name, add_names, is_sorted_set, lemma_names_unique};
use crate::order::same_text;
use crate::table::Align;
use crate::text::{concat3, cut, join, joined, split_once, texts};

verus! {

/// The key under which a report has the rows of a section.
pub open spec fn rows_key_text(kind: AgentReportKind) -> &'static str {
    match kind {
        AgentReportKind::Daily => "daily",
        AgentReportKind::Weekly => "weekly",
        AgentReportKind::Monthly => "monthly",
        AgentReportKind::Session => "session",
    }
}

/// The key under which a report has the rows of a section.
pub fn rows_key(kind: AgentReportKind) -> (out: &'static str)
    ensures
        out == rows_key_text(kind),
{
    match kind {
        AgentReportKind::Daily => "daily",
        AgentReportKind::Weekly => "weekly",
        AgentReportKind::Monthly => "monthly",
        AgentReportKind::Session => "session",
    }
}

/// The sections of a report have different keys.
pub proof fn section_keys_differ(kind: AgentReportKind, other: AgentReportKind)
    requires
        kind != other,
    ensures
        rows_key_text(kind)@ != rows_key_text(other)@,
{
    reveal_strlit("daily");
    reveal_strlit("weekly");
    reveal_strlit("monthly");
    reveal_strlit("session");
    let a = rows_key_text(kind)@;
    let b = rows_key_text(other)@;
    if a.len() == b.len() {
        assert(a[0] != b[0]);
    }
}

/// The header of the first column.
pub open spec fn first_column_text(kind: AgentReportKind) -> &'static str {
    match kind {
        AgentReportKind::Daily => "Date",
        AgentReportKind::Weekly => "Week",
        AgentReportKind::Monthly => "Month",
        AgentReportKind::Session => "Session",
    }
}

/// The header of the first column.
pub fn first_column(kind: AgentReportKind) -> (out: &'static str)
    ensures
        out == first_column_text(kind),
{
    match kind {
        AgentReportKind::Daily => "Date",
        AgentReportKind::Weekly => "Week",
        AgentReportKind::Monthly => "Month",
        AgentReportKind::Session => "Session",
    }
}

/// The name of a section in titles.
pub open spec fn section_title(kind: AgentReportKind) -> &'static str {
    match kind {
        AgentReportKind::Daily => "Daily",
        AgentReportKind::Weekly => "Weekly",
        AgentReportKind::Monthly => "Monthly",
        AgentReportKind::Session => "Session",
    }
}

/// The columns of a unified table, without the cost column where costs are not wanted.
pub open spec fn columns(kind: AgentReportKind, compact: bool, no_cost: bool) -> Seq<&'static str> {
    let all = if compact {
        seq![first_column_text(kind), "Agent", "Models", "Input", "Output", "Cost (USD)"]
    } else {
        seq![
            first_column_text(kind),
            "Agent",
            "Models",
            "Input",
            "Output",
            "Cache Create",
            "Cache Read",
            "Total Tokens",
            "Cost (USD)",
        ]
    };
    if no_cost {
        all.drop_last()
    } else {
        all
    }
}

/// The alignment of columns: the first three to the left, the figures to the right.
pub open spec fn column_aligns(count: nat) -> Seq<Align> {
    Seq::new(
        count,
        |i: int|
            if i < 3 {
                Align::Left
            } else {
                Align::Right
            },
    )
}

/// The columns of a unified table and their alignment.
pub fn all_table_columns(kind: AgentReportKind, compact: bool, no_cost: bool) -> (out: (
    Vec<&'static str>,
    Vec<Align>,
))
    ensures
        out.0@ == columns(kind, compact, no_cost),
        out.1@ == column_aligns(columns(kind, compact, no_cost).len()),
{
    let mut headers = if compact {
        vec![first_column(kind), "Agent", "Models", "Input", "Output", "Cost (USD)"]
    } else {
        vec![
            first_column(kind),
            "Agent",
            "Models",
            "Input",
            "Output",
            "Cache Create",
            "Cache Read",
            "Total Tokens",
            "Cost (USD)",
        ]
    };
    let mut aligns = if compact {
        vec![
            Align::Left,
            Align::Left,
            Align::Left,
            Align::Right,
            Align::Right,
            Align::Right,
        ]
    } else {
        vec![
            Align::Left,
            Align::Left,
            Align::Left,
            Align::Right,
            Align::Right,
            Align::Right,
            Align::Right,
            Align::Right,
            Align::Right,
        ]
    };
    if no_cost {
        let _ = headers.pop();
        let _ = aligns.pop();
    }
    assert(headers@ =~= columns(kind, compact, no_cost));
    assert(aligns@ =~= column_aligns(columns(kind, compact, no_cost).len()));
    (headers, aligns)
}

/// The display name of an agent; an agent without one is shown as it is.
///
/// The table is not complete. One supported agent, the command-line agent of the opus and sonnet
/// models, has a capitalised display name that does not stand in it: this function gives that
/// agent's own name, in lower case.
pub open spec fn agent_label_text(agent: Seq<char>) -> Seq<char> {
    if agent == "all"@ {
        "All"@
    } else if agent == "codex"@ {
        "Codex"@
    } else if agent == "opencode"@ {
        "OpenCode"@
    } else if agent == "amp"@ {
        "Amp"@
    } else if agent == "droid"@ {
        "Droid"@
    } else if agent == "codebuff"@ {
        "Codebuff"@
    } else if agent == "hermes"@ {
        "Hermes"@
    } else if agent == "pi"@ {
        "pi-agent"@
    } else if agent == "goose"@ {
        "Goose"@
    } else if agent == "openclaw"@ {
        "OpenClaw"@
    } else if agent == "kilo"@ {
        "Kilo"@
    } else if agent == "copilot"@ {
        "GitHub Copilot CLI"@
    } else if agent == "gemini"@ {
        "Gemini CLI"@
    } else if agent == "kimi"@ {
        "Kimi"@
    } else if agent == "qwen"@ {
        "Qwen"@
    } else if agent == "grok"@ {
        "Grok"@
    } else {
        agent
    }
}

/// The display name of an agent; an agent without one is shown as it is.
///
/// The table is not complete. One supported agent, the command-line agent of the opus and sonnet
/// models, has a capitalised display name that does not stand in it: this function gives that
/// agent's own name, in lower case.
pub fn agent_label(agent: &str) -> (out: &str)
    ensures
        out@ == agent_label_text(agent@),
{
    if same_text(agent, "all") {
        "All"
    } else if same_text(agent, "codex") {
        "Codex"
    } else if same_text(agent, "opencode") {
        "OpenCode"
    } else if same_text(agent, "amp") {
        "Amp"
    } else if same_text(agent, "droid") {
        "Droid"
    } else if same_text(agent, "codebuff") {
        "Codebuff"
    } else if same_text(agent, "hermes") {
        "Hermes"
    } else if same_text(agent, "pi") {
        "pi-agent"
    } else if same_text(agent, "goose") {
        "Goose"
    } else if same_text(agent, "openclaw") {
        "OpenClaw"
    } else if same_text(agent, "kilo") {
        "Kilo"
    } else if same_text(agent, "copilot") {
        "GitHub Copilot CLI"
    } else if same_text(agent, "gemini") {
        "Gemini CLI"
    } else if same_text(agent, "kimi") {
        "Kimi"
    } else if same_text(agent, "qwen") {
        "Qwen"
    } else if same_text(agent, "grok") {
        "Grok"
    } else {
        agent
    }
}

/// A model name without the store it comes from: `[store] model` becomes `model`.
pub open spec fn without_store(model: Seq<char>) -> Seq<char> {
    if model.len() > 0 && model[0] == '[' {
        match cut(model.skip(1), ']') {
            Some((_, after)) => if after.len() > 0 && after[0] == ' ' {
                after.skip(1)
            } else {
                after
            },
            None => model,
        }
    } else {
        model
    }
}

/// A model name without the store it comes from. Unified reports have an agent column, so their
/// model names drop the store and spend the width on the name.
pub fn strip_store_prefix(model: &str) -> (out: String)
    ensures
        out@ == without_store(model@),
{
    let count: usize = model.unicode_len();
    if count == 0 || model.get_char(0) != '[' {
        return model.to_owned();
    }
    let rest = model.substring_char(1, count);
    assert(rest@ =~= model@.skip(1));
    match split_once(rest, ']') {
        Some(halves) => {
            let after = halves.1.as_str();
            let length: usize = after.unicode_len();
            if length > 0 && after.get_char(0) == ' ' {
                let name = after.substring_char(1, length);
                assert(name@ =~= after@.skip(1));
                name.to_owned()
            } else {
                after.to_owned()
            }
        },
        None => model.to_owned(),
    }
}

/// The store prefix of a model name comes off and the name comes back, as long as the store is
/// free of the closing bracket.
pub proof fn store_prefix_comes_off(store: Seq<char>, model: Seq<char>)
    requires
        !store.contains(']'),
    ensures
        without_store(seq!['['] + store + seq![']', ' '] + model) == model,
{
    let whole = seq!['['] + store + seq![']', ' '] + model;
    let rest = whole.skip(1);
    assert(rest =~= store + seq![']', ' '] + model);
    assert forall|i: int| 0 <= i < store.len() implies rest[i] != ']' by {
        assert(store.contains(store[i]));
    }
    crate::text::lemma_first_at_unique(rest, ']', store.len() as int);
    let after = rest.skip(store.len() as int + 1);
    assert(after =~= seq![' '] + model);
    assert(after.skip(1) =~= model);
}

/// The agents that a row mentions: those of its metadata, or else its own unless it stands for
/// all, and those of its breakdowns.
pub open spec fn row_agents(row: AllRow) -> Seq<Seq<char>> {
    (match row.metadata_agents {
        Some(agents) => texts(agents@),
        None => if row.agent@ == "all"@ {
            Seq::empty()
        } else {
            seq![row.agent@]
        },
    }) + (match row.agent_breakdowns {
        Some(breakdowns) => breakdowns@.map_values(|breakdown: AllRow| breakdown.agent@),
        None => Seq::empty(),
    })
}

/// The agents that rows mention.
pub open spec fn rows_agents(rows: Seq<AllRow>) -> Seq<Seq<char>>
    decreases rows.len(),
{
    if rows.len() == 0 {
        Seq::empty()
    } else {
        rows_agents(rows.drop_last()) + row_agents(rows.last())
    }
}

/// The agents of a report: the detected ones, or where none were detected those its rows mention.
pub open spec fn report_agents(rows: Seq<AllRow>, detected: Seq<String>) -> Seq<Seq<char>> {
    if detected.len() == 0 {
        rows_agents(rows)
    } else {
        texts(detected)
    }
}

/// The display names of the given agents, or `None`.
pub open spec fn labels_text(sorted: Seq<Seq<char>>) -> Seq<char> {
    if sorted.len() == 0 {
        "None"@
    } else {
        joined(sorted.map_values(|agent: Seq<char>| agent_label_text(agent)), ", "@)
    }
}

/// The agents of a report in ascending order, each once.
fn sorted_agents(rows: &Vec<AllRow>, detected: &Vec<String>) -> (set: Vec<String>)
    ensures
        is_sorted_set(report_agents(rows@, detected@), texts(set@)),
{
    let mut set: Vec<String> = Vec::new();
    let ghost none = Seq::<Seq<char>>::empty();
    assert(texts(set@) =~= none);
    if detected.len() > 0 {
        add_names(&mut set, detected, Ghost(none));
        assert(none + texts(detected@) =~= texts(detected@));
        return set;
    }
    let mut i: usize = 0;
    assert(rows@.take(0) =~= Seq::empty());
    while i < rows.len()
        invariant
            i <= rows@.len(),
            is_sorted_set(rows_agents(rows@.take(i as int)), texts(set@)),
        decreases rows@.len() - i,
    {
        let row = &rows[i];
        let ghost before = rows_agents(rows@.take(i as int));
        let ghost mut seen = before;
        assert(rows@.take(i + 1).drop_last() =~= rows@.take(i as int));
        match &row.metadata_agents {
            Some(agents) => {
                add_names(&mut set, agents, Ghost(seen));
                proof {
                    seen = seen + texts(agents@);
                }
            },
            None => {
                if !same_text(row.agent.as_str(), "all") {
                    add_name(&mut set, &row.agent, Ghost(seen));
                    proof {
                        assert(seen.push(row.agent@) =~= seen + seq![row.agent@]);
                        seen = seen + seq![row.agent@];
                    }
                } else {
                    assert(seen =~= seen + Seq::<Seq<char>>::empty());
                }
            },
        }
        let ghost middle = seen;
        match &row.agent_breakdowns {
            Some(breakdowns) => {
                let ghost more = breakdowns@.map_values(|breakdown: AllRow| breakdown.agent@);
                let mut j: usize = 0;
                assert(middle + more.take(0) =~= middle);
                while j < breakdowns.len()
                    invariant
                        j <= breakdowns@.len(),
                        more == breakdowns@.map_values(|breakdown: AllRow| breakdown.agent@),
                        is_sorted_set(middle + more.take(j as int), texts(set@)),
                    decreases breakdowns@.len() - j,
                {
                    add_name(&mut set, &breakdowns[j].agent, Ghost(middle + more.take(j as int)));
                    assert((middle + more.take(j as int)).push(breakdowns@[j as int].agent@)
                        =~= middle + more.take(j + 1));
                    j = j + 1;
                }
                assert(more.take(breakdowns@.len() as int) =~= more);
                assert(middle + more =~= before + row_agents(*row));
            },
            None => {
                assert(middle =~= before + row_agents(*row));
            },
        }
        i = i + 1;
    }
    assert(rows@.take(rows@.len() as int) =~= rows@);
    set
}

/// The display names of the agents of a report, by agent in ascending order.
pub fn detected_agent_labels(rows: &Vec<AllRow>, detected_agents: &Vec<String>) -> (out: String)
    ensures
        exists|sorted: Seq<Seq<char>>| #[trigger]
            is_sorted_set(report_agents(rows@, detected_agents@), sorted) && out@ == labels_text(
                sorted,
            ),
{
    let set = sorted_agents(rows, detected_agents);
    let ghost sorted = texts(set@);
    if set.len() == 0 {
        assert(sorted.len() == 0);
        return "None".to_owned();
    }
    let mut labels: Vec<String> = Vec::new();
    let mut i: usize = 0;
    while i < set.len()
        invariant
            i <= set@.len(),
            sorted == texts(set@),
            texts(labels@) =~= sorted.take(i as int).map_values(
                |agent: Seq<char>| agent_label_text(agent),
            ),
        decreases set@.len() - i,
    {
        let ghost before = texts(labels@);
        let label = agent_label(set[i].as_str()).to_owned();
        labels.push(label);
        assert(texts(labels@) =~= before.push(label@));
        i = i + 1;
    }
    assert(sorted.take(set@.len() as int) =~= sorted);
    join(&labels, ", ")
}

/// There is only one way to list a set of names in ascending order, so the labels of a report do
/// not depend on the order in which its agents were found.
pub proof fn labels_do_not_depend_on_order(
    names: Seq<Seq<char>>,
    other_names: Seq<Seq<char>>,
    sorted: Seq<Seq<char>>,
    other_sorted: Seq<Seq<char>>,
)
    requires
        forall|name: Seq<char>| names.contains(name) <==> other_names.contains(name),
        is_sorted_set(names, sorted),
        is_sorted_set(other_names, other_sorted),
    ensures
        labels_text(sorted) == labels_text(other_sorted),
{
    lemma_names_unique(sorted, other_sorted);
}

/// The title of a unified report.
pub fn all_report_title(kind: AgentReportKind, rows: &Vec<AllRow>, detected_agents: &Vec<String>) -> (out:
    String)
    ensures
        exists|sorted: Seq<Seq<char>>| #[trigger]
            is_sorted_set(report_agents(rows@, detected_agents@), sorted) && out@
                == "Coding (Agent) CLI Usage Report - "@ + section_title(kind)@ + "\nDetected: "@
                + labels_text(sorted),
{
    let section = match kind {
        AgentReportKind::Daily => "Daily",
        AgentReportKind::Weekly => "Weekly",
        AgentReportKind::Monthly => "Monthly",
        AgentReportKind::Session => "Session",
    };
    let labels = detected_agent_labels(rows, detected_agents);
    let mut out = concat3("Coding (Agent) CLI Usage Report - ", section, "\nDetected: ");
    out.append(labels.as_str());
    out
}

} // verus!
