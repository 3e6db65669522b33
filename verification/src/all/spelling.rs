//! How periods, agents and sections are spelled.

use vstd::prelude::*;
use vstd::string::*;
use crate::all::labels::{
    agent_label_text, labels_text, report_agents, row_agents, rows_agents, rows_key_text,
    section_title, without_store,
};
use crate::all::layout::{lemma_one_byte_each, one_byte_each};
use crate::all::period::{digit_of, month_text, period_label};
use crate::all::rows::{AgentReportKind, AllRow};
use crate::names::is_sorted_set;
use crate::text::{
    byte_len, byte_slice, char_at_byte, digit, first_at, joined, lemma_char_bytes, lemma_first_at,
    lemma_first_at_unique, texts,
};

verus! {

/// The first three letters of the months, one after the other.
pub open spec fn calendar() -> Seq<char> {
    "JanFebMarAprMayJunJulAugSepOctNovDec"@
}

/// The first three letters of a month.
pub open spec fn letters_of(month: int) -> Seq<char> {
    calendar().subrange(3 * (month - 1), 3 * month)
}

proof fn lemma_month_text(month: int)
    requires
        1 <= month <= 12,
    ensures
        month_text(month)@ == letters_of(month),
{
    reveal_strlit("JanFebMarAprMayJunJulAugSepOctNovDec");
    reveal_strlit("Jan");
    reveal_strlit("Feb");
    reveal_strlit("Mar");
    reveal_strlit("Apr");
    reveal_strlit("May");
    reveal_strlit("Jun");
    reveal_strlit("Jul");
    reveal_strlit("Aug");
    reveal_strlit("Sep");
    reveal_strlit("Oct");
    reveal_strlit("Nov");
    reveal_strlit("Dec");
    assert(month_text(month)@ =~= letters_of(month));
}

proof fn lemma_place_of_byte(s: Seq<char>, at: int)
    requires
        one_byte_each(s),
        0 <= at <= s.len(),
    ensures
        char_at_byte(s, at) == Some(at),
    decreases s.len(),
{
    if at > 0 {
        let rest = s.drop_first();
        lemma_char_bytes(s[0]);
        assert forall|i: int| 0 <= i < rest.len() implies (#[trigger] rest[i] as u32) < 0x80 by {
            assert(rest[i] == s[i + 1]);
        }
        lemma_place_of_byte(rest, at - 1);
    }
}

/// A date: year, month and day with dashes between them.
pub open spec fn date_text(year: Seq<char>, month: nat, day: Seq<char>) -> Seq<char> {
    year + seq!['-', digit(month / 10), digit(month % 10), '-'] + day
}

/// A date is shown as the first three letters of its month and its day.
pub proof fn dates_show_month_and_day(year: Seq<char>, month: nat, day: Seq<char>)
    requires
        year.len() == 4,
        one_byte_each(year),
        1 <= month <= 12,
        day.len() == 2,
        one_byte_each(day),
    ensures
        period_label(date_text(year, month, day)) == letters_of(month as int) + " "@ + day,
{
    let period = date_text(year, month, day);
    reveal_strlit("-");
    assert(one_byte_each(period));
    lemma_one_byte_each(period);
    lemma_place_of_byte(period, 4);
    lemma_place_of_byte(period, 5);
    lemma_place_of_byte(period, 7);
    lemma_place_of_byte(period, 8);
    lemma_place_of_byte(period, 10);
    assert(period.subrange(4, 5) =~= "-"@);
    assert(byte_slice(period, 4, 5) == Some("-"@));
    let digits = period.subrange(5, 7);
    assert(digits[0] == digit(month / 10) && digits[1] == digit(month % 10));
    assert(digit_of(digits[0]) == month / 10 && digit_of(digits[1]) == month % 10);
    assert(10 * (month / 10) + month % 10 == month);
    assert(period.subrange(8, 10) =~= day);
    lemma_month_text(month as int);
}

/// What is not as long as a date is shown as it is: weeks and months among others.
pub proof fn other_periods_stay(period: Seq<char>)
    requires
        byte_len(period) != 10,
    ensures
        period_label(period) == period,
{
}

/// The characters are the same letter, though the second may be a capital.
pub open spec fn same_letter(a: char, b: char) -> bool {
    a == b || ('a' <= a <= 'z' && b as int == a as int - 32)
}

/// The texts are spelled alike, though the second may have capitals.
pub open spec fn spelled_alike(a: Seq<char>, b: Seq<char>) -> bool {
    a.len() == b.len() && forall|i: int| 0 <= i < a.len() ==> same_letter(#[trigger] a[i], b[i])
}

/// An agent that the table of display names has under its own name with a capital.
pub open spec fn is_capitalised(agent: Seq<char>) -> bool {
    ||| agent == "all"@
    ||| agent == "codex"@
    ||| agent == "opencode"@
    ||| agent == "amp"@
    ||| agent == "droid"@
    ||| agent == "codebuff"@
    ||| agent == "hermes"@
    ||| agent == "goose"@
    ||| agent == "openclaw"@
    ||| agent == "kilo"@
    ||| agent == "kimi"@
    ||| agent == "qwen"@
    ||| agent == "grok"@
}

/// A name's length and its first and last characters, which tell the agents apart.
spec fn mark(name: Seq<char>) -> (nat, char, char) {
    (name.len(), name[0], name.last())
}

proof fn lemma_agents_differ()
    ensures
        mark("pi"@) == (2nat, 'p', 'i'),
        mark("copilot"@) == (7nat, 'c', 't'),
        mark("gemini"@) == (6nat, 'g', 'i'),
        mark("all"@) == (3nat, 'a', 'l'),
        mark("codex"@) == (5nat, 'c', 'x'),
        mark("opencode"@) == (8nat, 'o', 'e'),
        mark("amp"@) == (3nat, 'a', 'p'),
        mark("droid"@) == (5nat, 'd', 'd'),
        mark("codebuff"@) == (8nat, 'c', 'f'),
        mark("hermes"@) == (6nat, 'h', 's'),
        mark("goose"@) == (5nat, 'g', 'e'),
        mark("openclaw"@) == (8nat, 'o', 'w'),
        mark("kilo"@) == (4nat, 'k', 'o'),
        mark("kimi"@) == (4nat, 'k', 'i'),
        mark("qwen"@) == (4nat, 'q', 'n'),
        mark("grok"@) == (4nat, 'g', 'k'),
{
    reveal_strlit("pi");
    reveal_strlit("copilot");
    reveal_strlit("gemini");
    reveal_strlit("all");
    reveal_strlit("codex");
    reveal_strlit("opencode");
    reveal_strlit("amp");
    reveal_strlit("droid");
    reveal_strlit("codebuff");
    reveal_strlit("hermes");
    reveal_strlit("goose");
    reveal_strlit("openclaw");
    reveal_strlit("kilo");
    reveal_strlit("kimi");
    reveal_strlit("qwen");
    reveal_strlit("grok");
}

/// Display names are spelled like their agents, but for the three agents whose display names say
/// more than the agent's name. Those of the agents named above begin with a capital.
pub proof fn labels_spell_the_agent(agent: Seq<char>)
    ensures
        agent != "pi"@ && agent != "copilot"@ && agent != "gemini"@ ==> spelled_alike(
            agent,
            agent_label_text(agent),
        ),
        is_capitalised(agent) ==> agent_label_text(agent)[0] as int == agent[0] as int - 32,
        agent == "pi"@ ==> agent_label_text(agent) == "pi-agent"@,
        agent == "copilot"@ ==> agent_label_text(agent) == "GitHub Copilot CLI"@,
        agent == "gemini"@ ==> agent_label_text(agent) == "Gemini CLI"@,
        !is_capitalised(agent) && agent != "pi"@ && agent != "copilot"@ && agent != "gemini"@
            ==> agent_label_text(agent) == agent,
{
    reveal_strlit("pi");
    reveal_strlit("pi-agent");
    reveal_strlit("copilot");
    reveal_strlit("GitHub Copilot CLI");
    reveal_strlit("gemini");
    reveal_strlit("Gemini CLI");
    reveal_strlit("all");
    reveal_strlit("All");
    reveal_strlit("codex");
    reveal_strlit("Codex");
    reveal_strlit("opencode");
    reveal_strlit("OpenCode");
    reveal_strlit("amp");
    reveal_strlit("Amp");
    reveal_strlit("droid");
    reveal_strlit("Droid");
    reveal_strlit("codebuff");
    reveal_strlit("Codebuff");
    reveal_strlit("hermes");
    reveal_strlit("Hermes");
    reveal_strlit("goose");
    reveal_strlit("Goose");
    reveal_strlit("openclaw");
    reveal_strlit("OpenClaw");
    reveal_strlit("kilo");
    reveal_strlit("Kilo");
    reveal_strlit("kimi");
    reveal_strlit("Kimi");
    reveal_strlit("qwen");
    reveal_strlit("Qwen");
    reveal_strlit("grok");
    reveal_strlit("Grok");
    lemma_agents_differ();
    if agent == "all"@ {
        assert(spelled_alike(agent, "All"@));
    }
    if agent == "codex"@ {
        assert(spelled_alike(agent, "Codex"@));
    }
    if agent == "opencode"@ {
        assert(spelled_alike(agent, "OpenCode"@));
    }
    if agent == "amp"@ {
        assert(spelled_alike(agent, "Amp"@));
    }
    if agent == "droid"@ {
        assert(spelled_alike(agent, "Droid"@));
    }
    if agent == "codebuff"@ {
        assert(spelled_alike(agent, "Codebuff"@));
    }
    if agent == "hermes"@ {
        assert(spelled_alike(agent, "Hermes"@));
    }
    if agent == "goose"@ {
        assert(spelled_alike(agent, "Goose"@));
    }
    if agent == "openclaw"@ {
        assert(spelled_alike(agent, "OpenClaw"@));
    }
    if agent == "kilo"@ {
        assert(spelled_alike(agent, "Kilo"@));
    }
    if agent == "kimi"@ {
        assert(spelled_alike(agent, "Kimi"@));
    }
    if agent == "qwen"@ {
        assert(spelled_alike(agent, "Qwen"@));
    }
    if agent == "grok"@ {
        assert(spelled_alike(agent, "Grok"@));
    }
}

/// Section titles are spelled like the keys of their sections, with a capital.
pub proof fn titles_spell_the_key(kind: AgentReportKind)
    ensures
        spelled_alike(rows_key_text(kind)@, section_title(kind)@),
        section_title(kind)@[0] as int == rows_key_text(kind)@[0] as int - 32,
{
    reveal_strlit("daily");
    reveal_strlit("weekly");
    reveal_strlit("monthly");
    reveal_strlit("session");
    reveal_strlit("Daily");
    reveal_strlit("Weekly");
    reveal_strlit("Monthly");
    reveal_strlit("Session");
}

/// The row mentions the agent: in its metadata, or else as its own agent where that is not `all`,
/// or in its breakdowns.
pub open spec fn mentions(row: AllRow, agent: Seq<char>) -> bool {
    ||| row.metadata_agents is Some && exists|i: int|
        0 <= i < row.metadata_agents->0@.len() && #[trigger] row.metadata_agents->0@[i]@ == agent
    ||| row.metadata_agents is None && row.agent@ == agent && agent != "all"@
    ||| row.agent_breakdowns is Some && exists|i: int|
        0 <= i < row.agent_breakdowns->0@.len() && (
        #[trigger] row.agent_breakdowns->0@[i]).agent@ == agent
}

proof fn lemma_row_agents(row: AllRow, agent: Seq<char>)
    ensures
        row_agents(row).contains(agent) <==> mentions(row, agent),
{
    let first = match row.metadata_agents {
        Some(agents) => texts(agents@),
        None => if row.agent@ == "all"@ {
            Seq::empty()
        } else {
            seq![row.agent@]
        },
    };
    let second = match row.agent_breakdowns {
        Some(breakdowns) => breakdowns@.map_values(|breakdown: AllRow| breakdown.agent@),
        None => Seq::empty(),
    };
    let all = row_agents(row);
    assert(all =~= first + second);
    if all.contains(agent) {
        let k = choose|k: int| 0 <= k < all.len() && all[k] == agent;
        if k < first.len() {
            assert(first[k] == agent);
            if let Some(agents) = row.metadata_agents {
                assert(agents@[k]@ == agent);
            }
        } else {
            let i = k - first.len();
            assert(second[i] == agent);
            assert(row.agent_breakdowns->0@[i].agent@ == agent);
        }
    }
    if mentions(row, agent) {
        if row.metadata_agents is Some && exists|i: int|
            0 <= i < row.metadata_agents->0@.len() && #[trigger] row.metadata_agents->0@[i]@
                == agent {
            let i = choose|i: int|
                0 <= i < row.metadata_agents->0@.len() && #[trigger] row.metadata_agents->0@[i]@
                    == agent;
            assert(all[i] == agent);
        } else if row.metadata_agents is None && row.agent@ == agent && agent != "all"@ {
            assert(all[0] == agent);
        } else {
            let i = choose|i: int|
                0 <= i < row.agent_breakdowns->0@.len() && (
                #[trigger] row.agent_breakdowns->0@[i]).agent@ == agent;
            assert(all[first.len() + i] == agent);
        }
    }
}

proof fn lemma_rows_agents(rows: Seq<AllRow>, agent: Seq<char>)
    ensures
        rows_agents(rows).contains(agent) <==> exists|r: int|
            0 <= r < rows.len() && mentions(#[trigger] rows[r], agent),
    decreases rows.len(),
{
    if rows.len() > 0 {
        let rest = rows.drop_last();
        let before = rows_agents(rest);
        let own = row_agents(rows.last());
        let all = rows_agents(rows);
        let n = rows.len() - 1;
        lemma_rows_agents(rest, agent);
        lemma_row_agents(rows.last(), agent);
        if all.contains(agent) {
            let k = choose|k: int| 0 <= k < all.len() && all[k] == agent;
            if k < before.len() {
                assert(before[k] == agent);
                let r = choose|r: int| 0 <= r < rest.len() && mentions(#[trigger] rest[r], agent);
                assert(mentions(rows[r], agent));
            } else {
                assert(own[k - before.len()] == agent);
                assert(mentions(rows[n], agent));
            }
        }
        if exists|r: int| 0 <= r < rows.len() && mentions(#[trigger] rows[r], agent) {
            let r = choose|r: int| 0 <= r < rows.len() && mentions(#[trigger] rows[r], agent);
            if r < n {
                assert(mentions(rest[r], agent));
                let k = choose|k: int| 0 <= k < before.len() && before[k] == agent;
                assert(all[k] == agent);
            } else {
                let k = choose|k: int| 0 <= k < own.len() && own[k] == agent;
                assert(all[before.len() + k] == agent);
            }
        }
    }
}

/// The agents of a title are those that were detected, or, where none were, those that the rows
/// mention; each stands once, under its display name, and without any the title says `None`.
pub proof fn titles_name_every_agent(
    rows: Seq<AllRow>,
    detected: Seq<String>,
    sorted: Seq<Seq<char>>,
    agent: Seq<char>,
)
    requires
        is_sorted_set(report_agents(rows, detected), sorted),
    ensures
        detected.len() > 0 ==> (sorted.contains(agent) <==> exists|i: int|
            0 <= i < detected.len() && #[trigger] detected[i]@ == agent),
        detected.len() == 0 ==> (sorted.contains(agent) <==> exists|r: int|
            0 <= r < rows.len() && mentions(#[trigger] rows[r], agent)),
        sorted.len() == 0 ==> labels_text(sorted) == "None"@,
        sorted.len() > 0 ==> labels_text(sorted) == joined(
            Seq::new(sorted.len(), |i: int| agent_label_text(sorted[i])),
            ", "@,
        ),
{
    lemma_rows_agents(rows, agent);
    let all = texts(detected);
    if detected.len() > 0 {
        if all.contains(agent) {
            let k = choose|k: int| 0 <= k < all.len() && all[k] == agent;
            assert(detected[k]@ == agent);
        }
        if exists|i: int| 0 <= i < detected.len() && #[trigger] detected[i]@ == agent {
            let i = choose|i: int| 0 <= i < detected.len() && #[trigger] detected[i]@ == agent;
            assert(all[i] == agent);
        }
    }
    assert(sorted.map_values(|agent: Seq<char>| agent_label_text(agent)) =~= Seq::new(
        sorted.len(),
        |i: int| agent_label_text(sorted[i]),
    ));
}

/// A model name that does not begin with a bracket, or has none that closes it, stays as it is; and
/// where no space follows the closing bracket, the name is what follows it.
pub proof fn names_without_a_store_stay(model: Seq<char>, store: Seq<char>)
    ensures
        (model.len() == 0 || model[0] != '[') ==> without_store(model) == model,
        !model.contains(']') ==> without_store(model) == model,
        !store.contains(']') && (model.len() == 0 || model[0] != ' ') ==> without_store(
            seq!['['] + store + seq![']'] + model,
        ) == model,
{
    if model.len() > 0 && model[0] == '[' && !model.contains(']') {
        let rest = model.skip(1);
        lemma_first_at(rest, ']');
        let at = first_at(rest, ']');
        if at < rest.len() {
            assert(model[at + 1] == ']');
            assert(model.contains(model[at + 1]));
        }
    }
    if !store.contains(']') {
        let whole = seq!['['] + store + seq![']'] + model;
        let rest = whole.skip(1);
        assert(rest =~= store + seq![']'] + model);
        assert forall|i: int| 0 <= i < store.len() implies rest[i] != ']' by {
            assert(store.contains(store[i]));
        }
        lemma_first_at_unique(rest, ']', store.len() as int);
        assert(rest.skip(store.len() as int + 1) =~= model);
    }
}

} // verus!
