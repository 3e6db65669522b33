//! Generations and sessions out of the records of a data directory.

use vstd::prelude::*;
use vstd::string::*;
use crate::cost::Cost;
use crate::fx::records::{
    all_well_formed, entry_models, opt_view, CostMode, EntryModel, FxEventLine, FxGeneration,
    FxLine, FxSession, Inquiry, Ledger, LoadedEntry, Quote, QuotedGeneration, SessionLog,
    TokenUsageRaw, UsageEntry, UsageMessage,
};
use crate::order::same_text;
use crate::paths::{last_name, name_of_path};
use crate::sort::{is_stable_sort, reversed, stable_sort};
use crate::text::{concat2, decimal, join, joined, number, texts};

verus! {

/// The generation of a record: one of that kind, with a fact and a time.
pub open spec fn generation_of(record: FxLine) -> Option<FxGeneration> {
    match (record.kind, record.fact) {
        (Some(kind), Some(fact)) => if kind@ == "generation"@ && fact.created_at_ms != 0 {
            Some(fact)
        } else {
            None
        },
        _ => None,
    }
}

/// The generations of records, in order.
pub open spec fn generations_of(records: Seq<FxLine>) -> Seq<FxGeneration>
    decreases records.len(),
{
    if records.len() == 0 {
        Seq::empty()
    } else {
        let before = generations_of(records.drop_last());
        match generation_of(records.last()) {
            Some(fact) => before.push(fact),
            None => before,
        }
    }
}

fn generation(record: FxLine) -> (out: Option<FxGeneration>)
    ensures
        out == generation_of(record),
{
    match (record.kind, record.fact) {
        (Some(kind), Some(fact)) => if same_text(kind.as_str(), "generation")
            && fact.created_at_ms != 0 {
            Some(fact)
        } else {
            None
        },
        _ => None,
    }
}

/// The generations of records, in order. Records of other kinds, without a fact or without a
/// time are passed over.
pub fn generations(records: Vec<FxLine>) -> (out: Vec<FxGeneration>)
    ensures
        out@ == generations_of(records@),
{
    let ghost all = records@;
    let mut rest = reversed(records);
    let mut out: Vec<FxGeneration> = Vec::new();
    let ghost mut n: int = 0;
    assert(all.take(0) =~= Seq::empty());
    while rest.len() > 0
        invariant
            0 <= n <= all.len(),
            rest@ =~= all.skip(n).reverse(),
            out@ == generations_of(all.take(n)),
        decreases rest@.len(),
    {
        if let Some(record) = rest.pop() {
            proof {
                assert(record == all[n]);
                assert(all.take(n + 1).drop_last() =~= all.take(n));
                n = n + 1;
            }
            if let Some(fact) = generation(record) {
                out.push(fact);
            }
        }
    }
    assert(all.take(n) =~= all);
    out
}

/// The four token counts of a generation.
pub open spec fn usage_of(fact: FxGeneration) -> TokenUsageRaw {
    TokenUsageRaw {
        input_tokens: fact.input_tokens,
        output_tokens: fact.output_tokens,
        cache_creation_input_tokens: fact.cache_write_tokens,
        cache_read_input_tokens: fact.cache_read_tokens,
    }
}

/// There are tokens of some kind.
pub open spec fn has_tokens(usage: TokenUsageRaw) -> bool {
    usage.input_tokens + usage.output_tokens + usage.cache_creation_input_tokens
        + usage.cache_read_input_tokens > 0
}

fn usage(fact: &FxGeneration) -> (out: TokenUsageRaw)
    ensures
        out == usage_of(*fact),
{
    TokenUsageRaw {
        input_tokens: fact.input_tokens,
        output_tokens: fact.output_tokens,
        cache_creation_input_tokens: fact.cache_write_tokens,
        cache_read_input_tokens: fact.cache_read_tokens,
    }
}

/// No cost at all.
pub open spec fn no_cost() -> Cost {
    Cost { bits: 0 }
}

/// The price of the tokens of a model: none in display mode, without a model, or where the model
/// has no price.
pub open spec fn token_price(model: Option<String>, mode: CostMode, priced: Option<Cost>) -> Cost {
    if mode == CostMode::Display || model is None {
        no_cost()
    } else {
        match priced {
            Some(cost) => cost,
            None => no_cost(),
        }
    }
}

/// The price of the tokens of a model, where `priced` is what the price list says of the model's
/// name as the source wrote it.
pub fn calculate_cost_from_tokens_raw(
    raw_model: &Option<String>,
    mode: CostMode,
    priced: Option<Cost>,
) -> (out: Cost)
    ensures
        out == token_price(*raw_model, mode, priced),
{
    let display = match mode {
        CostMode::Display => true,
        _ => false,
    };
    if display || raw_model.is_none() {
        return Cost { bits: 0 };
    }
    match priced {
        Some(cost) => cost,
        None => Cost { bits: 0 },
    }
}

/// The cost of a generation: the recorded one in display mode, the price of the tokens in
/// calculate mode, and in auto mode the recorded one where there is one, be it zero, or else the
/// price of the tokens.
pub open spec fn generation_cost(fact: FxGeneration, mode: CostMode, priced: Option<Cost>) -> Cost {
    match (mode, fact.total_cost) {
        (CostMode::Display, Some(cost)) => cost,
        (CostMode::Display, None) => no_cost(),
        (CostMode::Auto, Some(cost)) => cost,
        _ => token_price(fact.model, mode, priced),
    }
}

/// A generation's time in milliseconds, as a signed number.
pub open spec fn time_of(fact: FxGeneration) -> i64 {
    fact.created_at_ms as i64
}

/// What a price list and a calendar are asked about a generation.
pub fn inquiry(fact: &FxGeneration) -> (out: Inquiry)
    ensures
        out.model == fact.model,
        out.usage == usage_of(*fact),
        out.display_cost == fact.total_cost,
        out.timestamp == time_of(*fact),
{
    Inquiry {
        model: copy_text(&fact.model),
        usage: usage(fact),
        display_cost: fact.total_cost,
        timestamp: time(fact),
    }
}

fn time(fact: &FxGeneration) -> (out: i64)
    ensures
        out == time_of(*fact),
{
    #[verifier::truncate]
    (fact.created_at_ms as i64)
}

fn copy_text(text: &Option<String>) -> (out: Option<String>)
    ensures
        out == *text,
{
    match text {
        Some(text) => Some(text.clone()),
        None => None,
    }
}

/// The label of a model: its name marked as one of fx.
pub open spec fn model_label(model: Option<String>) -> Option<Seq<char>> {
    match model {
        Some(name) => Some("[fx] "@ + name@),
        None => None,
    }
}

fn label(model: &Option<String>) -> (out: Option<String>)
    ensures
        opt_view(out) == model_label(*model),
{
    match model {
        Some(name) => Some(concat2("[fx] ", name.as_str())),
        None => None,
    }
}

/// The entry of a generation; none for a generation without tokens.
pub open spec fn entry_of(
    fact: FxGeneration,
    session_id: Seq<char>,
    project: Seq<char>,
    mode: CostMode,
    quote: Quote,
) -> Option<EntryModel> {
    if has_tokens(usage_of(fact)) {
        Some(
            EntryModel {
                id: opt_view(fact.id),
                usage: usage_of(fact),
                cost_usd: fact.total_cost,
                timestamp_text: quote.timestamp_text@,
                timestamp: time_of(fact),
                date: quote.date@,
                project,
                session_id,
                cost: generation_cost(fact, mode, quote.priced),
                model: model_label(fact.model),
                missing_pricing_model: opt_view(quote.missing_pricing_model),
            },
        )
    } else {
        None
    }
}

/// The entry of a generation; none for a generation without tokens.
pub fn loaded_entry(
    fact: FxGeneration,
    session_id: String,
    project: String,
    mode: CostMode,
    quote: Quote,
) -> (out: Option<LoadedEntry>)
    ensures
        match out {
            Some(entry) => entry.well_formed() && entry_of(
                fact,
                session_id@,
                project@,
                mode,
                quote,
            ) == Some(entry.model()),
            None => entry_of(fact, session_id@, project@, mode, quote) is None,
        },
        out is Some <==> fact.input_tokens > 0 || fact.output_tokens > 0 || fact.cache_write_tokens
            > 0 || fact.cache_read_tokens > 0,
        out matches Some(entry) ==> {
            let usage = entry.data.message.usage;
            &&& usage.input_tokens == fact.input_tokens
            &&& usage.output_tokens == fact.output_tokens
            &&& usage.cache_creation_input_tokens == fact.cache_write_tokens
            &&& usage.cache_read_input_tokens == fact.cache_read_tokens
            &&& entry.data.message.id == fact.id
            &&& entry.data.cost_usd == fact.total_cost
            &&& entry.timestamp == fact.created_at_ms as i64
            &&& entry.data.timestamp@ == quote.timestamp_text@
            &&& entry.date@ == quote.date@
            &&& entry.session_id@ == session_id@
            &&& entry.project@ == project@
            &&& entry.missing_pricing_model == quote.missing_pricing_model
        },
{
    let usage = usage(&fact);
    if usage.input_tokens == 0 && usage.output_tokens == 0 && usage.cache_creation_input_tokens == 0
        && usage.cache_read_input_tokens == 0 {
        return None;
    }
    let cost = match (mode, fact.total_cost) {
        (CostMode::Display, Some(cost)) => cost,
        (CostMode::Display, None) => Cost { bits: 0 },
        (CostMode::Auto, Some(cost)) => cost,
        _ => calculate_cost_from_tokens_raw(&fact.model, mode, quote.priced),
    };
    let timestamp: i64 = time(&fact);
    let message = UsageMessage { usage, model: label(&fact.model), id: fact.id };
    let data = UsageEntry {
        session_id: Some(session_id.clone()),
        timestamp: quote.timestamp_text,
        message,
        cost_usd: fact.total_cost,
    };
    let entry = LoadedEntry {
        data,
        timestamp,
        date: quote.date,
        project: project.clone(),
        session_id,
        project_path: project,
        cost,
        model: label(&fact.model),
        missing_pricing_model: quote.missing_pricing_model,
    };
    Some(entry)
}

/// A recorded cost survives: unless every cost is to be calculated, an entry of a generation with
/// a recorded cost has that cost, so that what was free stays free.
pub proof fn recorded_costs_survive(
    fact: FxGeneration,
    session_id: Seq<char>,
    project: Seq<char>,
    mode: CostMode,
    quote: Quote,
    cost: Cost,
)
    requires
        mode != CostMode::Calculate,
        fact.total_cost == Some(cost),
        has_tokens(usage_of(fact)),
    ensures
        entry_of(fact, session_id, project, mode, quote) matches Some(entry) && entry.cost == cost
            && entry.cost_usd == Some(cost),
{
}

/// The session that a generation of the time `at` belongs to: the one that started last, at or
/// before that time, and the first of those that started together.
pub open spec fn best_session(sessions: Seq<FxSession>, at: u64) -> Option<int>
    decreases sessions.len(),
{
    if sessions.len() == 0 {
        None
    } else {
        let last = sessions.last();
        match best_session(sessions.drop_last(), at) {
            Some(best) => if last.started_at_ms <= at && last.started_at_ms
                > sessions[best].started_at_ms {
                Some(sessions.len() - 1)
            } else {
                Some(best)
            },
            None => if last.started_at_ms <= at {
                Some(sessions.len() - 1)
            } else {
                None
            },
        }
    }
}

/// The latest start wins, so that attribution is deterministic when sessions overlap: the session
/// of a generation started at or before it, no session started between the two, and none before
/// it in the list started at the same time. Only where every session started later is there no
/// session.
pub proof fn the_latest_start_wins(sessions: Seq<FxSession>, at: u64)
    ensures
        match best_session(sessions, at) {
            Some(best) => {
                &&& 0 <= best < sessions.len()
                &&& sessions[best].started_at_ms <= at
                &&& forall|i: int|
                    0 <= i < sessions.len() && (#[trigger] sessions[i]).started_at_ms <= at
                        ==> sessions[i].started_at_ms <= sessions[best].started_at_ms
                &&& forall|i: int|
                    0 <= i < best ==> (#[trigger] sessions[i]).started_at_ms
                        != sessions[best].started_at_ms
            },
            None => forall|i: int|
                0 <= i < sessions.len() ==> (#[trigger] sessions[i]).started_at_ms > at,
        },
    decreases sessions.len(),
{
    if sessions.len() > 0 {
        let before = sessions.drop_last();
        the_latest_start_wins(before, at);
        assert forall|i: int| 0 <= i < before.len() implies #[trigger] sessions[i] == before[i] by {}
    }
}

/// The session that generations without one belong to.
pub const NO_SESSION: &'static str = "(no session)";

/// The session and the project of a generation.
pub open spec fn attributed(at: u64, sessions: Seq<FxSession>, fallback: Seq<char>) -> (
    Seq<char>,
    Seq<char>,
) {
    match best_session(sessions, at) {
        Some(best) => (
            sessions[best].id@,
            match sessions[best].project {
                Some(project) => project@,
                None => fallback,
            },
        ),
        None => (NO_SESSION@, fallback),
    }
}

/// The session and the project of a generation. `fallback_project` stands in where the session
/// has no workspace or there is no session.
pub fn attribute_generation(
    fact: &FxGeneration,
    sessions: &Vec<FxSession>,
    fallback_project: &str,
) -> (out: (String, String))
    ensures
        (out.0@, out.1@) == attributed(fact.created_at_ms, sessions@, fallback_project@),
{
    let at: u64 = fact.created_at_ms;
    let mut best: Option<usize> = None;
    let mut i: usize = 0;
    assert(sessions@.take(0) =~= Seq::empty());
    while i < sessions.len()
        invariant
            i <= sessions@.len(),
            match best {
                Some(k) => k < i && best_session(sessions@.take(i as int), at) == Some(k as int),
                None => best_session(sessions@.take(i as int), at) is None,
            },
        decreases sessions@.len() - i,
    {
        assert(sessions@.take(i + 1).drop_last() =~= sessions@.take(i as int));
        if sessions[i].started_at_ms <= at {
            let later = match best {
                Some(k) => sessions[i].started_at_ms > sessions[k].started_at_ms,
                None => true,
            };
            if later {
                best = Some(i);
            }
        }
        i = i + 1;
    }
    assert(sessions@.take(sessions@.len() as int) =~= sessions@);
    match best {
        Some(k) => {
            let project = match &sessions[k].project {
                Some(project) => project.clone(),
                None => fallback_project.to_owned(),
            };
            (sessions[k].id.clone(), project)
        },
        None => (NO_SESSION.to_owned(), fallback_project.to_owned()),
    }
}

/// Where no two sessions started together, attribution does not depend on the order in which
/// sessions are listed.
pub proof fn attribution_does_not_depend_on_session_order(
    a: Seq<FxSession>,
    b: Seq<FxSession>,
    at: u64,
    fallback: Seq<char>,
)
    requires
        forall|i: int| 0 <= i < a.len() ==> b.contains(#[trigger] a[i]),
        forall|i: int| 0 <= i < b.len() ==> a.contains(#[trigger] b[i]),
        forall|i: int, j: int|
            0 <= i < a.len() && 0 <= j < a.len() && (#[trigger] a[i]).started_at_ms == (
            #[trigger] a[j]).started_at_ms ==> a[i] == a[j],
    ensures
        attributed(at, a, fallback) == attributed(at, b, fallback),
{
    the_latest_start_wins(a, at);
    the_latest_start_wins(b, at);
    if let Some(i) = best_session(a, at) {
        assert(b.contains(a[i]));
        let j = choose|j: int| 0 <= j < b.len() && b[j] == a[i];
        assert(b[j].started_at_ms <= at);
    }
    if let Some(i) = best_session(b, at) {
        assert(a.contains(b[i]));
        let j = choose|j: int| 0 <= j < a.len() && a[j] == b[i];
        assert(a[j].started_at_ms <= at);
    }
}

/// The event is of the kind that starts a session.
pub open spec fn is_start(event: FxEventLine) -> bool {
    event.kind matches Some(kind) && kind@ == "session_started"@
}

/// The session of an event: one that starts a session, with an id and a time.
pub open spec fn session_of(event: FxEventLine) -> Option<FxSession> {
    match event.payload {
        Some(started) => match started.id {
            Some(id) => if is_start(event) && started.created_at_ms != 0 {
                Some(
                    FxSession {
                        id,
                        project: started.workspace_root,
                        started_at_ms: started.created_at_ms,
                    },
                )
            } else {
                None
            },
            None => None,
        },
        None => None,
    }
}

/// The sessions of events, in order.
pub open spec fn sessions_of(events: Seq<FxEventLine>) -> Seq<FxSession>
    decreases events.len(),
{
    if events.len() == 0 {
        Seq::empty()
    } else {
        let before = sessions_of(events.drop_last());
        match session_of(events.last()) {
            Some(session) => before.push(session),
            None => before,
        }
    }
}

/// The sessions of logs, in order.
pub open spec fn logged_sessions(logs: Seq<SessionLog>) -> Seq<FxSession>
    decreases logs.len(),
{
    if logs.len() == 0 {
        Seq::empty()
    } else {
        logged_sessions(logs.drop_last()) + sessions_of(logs.last().events@)
    }
}

/// The sessions of logs by their start; those that started together stand in the order of their
/// directories.
pub open spec fn is_session_index(logs: Seq<SessionLog>, index: Seq<FxSession>) -> bool {
    exists|sorted: Seq<SessionLog>| #[trigger]
        is_stable_sort(logs, sorted) && is_stable_sort(logged_sessions(sorted), index)
}

fn session(event: &FxEventLine) -> (out: Option<FxSession>)
    ensures
        out == session_of(*event),
{
    let starts = match &event.kind {
        Some(kind) => same_text(kind.as_str(), "session_started"),
        None => false,
    };
    if !starts {
        return None;
    }
    match &event.payload {
        Some(started) => match &started.id {
            Some(id) => if started.created_at_ms != 0 {
                Some(
                    FxSession {
                        id: id.clone(),
                        project: copy_text(&started.workspace_root),
                        started_at_ms: started.created_at_ms,
                    },
                )
            } else {
                None
            },
            None => None,
        },
        None => None,
    }
}

/// The sessions of logs by their start. Events of other kinds, without an id or without a time are
/// passed over.
pub fn load_session_index(logs: Vec<SessionLog>) -> (out: Vec<FxSession>)
    ensures
        is_session_index(logs@, out@),
{
    let ghost unsorted = logs@;
    let logs = stable_sort(logs);
    let mut sessions: Vec<FxSession> = Vec::new();
    let mut d: usize = 0;
    assert(logs@.take(0) =~= Seq::empty());
    while d < logs.len()
        invariant
            d <= logs@.len(),
            sessions@ == logged_sessions(logs@.take(d as int)),
        decreases logs@.len() - d,
    {
        let events = &logs[d].events;
        let ghost before = sessions@;
        let mut i: usize = 0;
        assert(events@.take(0) =~= Seq::empty());
        assert(before =~= before + sessions_of(events@.take(0)));
        while i < events.len()
            invariant
                i <= events@.len(),
                sessions@ == before + sessions_of(events@.take(i as int)),
            decreases events@.len() - i,
        {
            assert(events@.take(i + 1).drop_last() =~= events@.take(i as int));
            if let Some(found) = session(&events[i]) {
                sessions.push(found);
                assert(sessions@ =~= before + sessions_of(events@.take(i as int)).push(found));
            }
            i = i + 1;
        }
        assert(events@.take(events@.len() as int) =~= events@);
        assert(logs@.take(d + 1).drop_last() =~= logs@.take(d as int));
        d = d + 1;
    }
    assert(logs@.take(logs@.len() as int) =~= logs@);
    assert(is_stable_sort(unsorted, logs@));
    stable_sort(sessions)
}

/// The project of generations that have none: the name of the data directory.
pub open spec fn directory_project(directory: Seq<char>) -> Seq<char> {
    match last_name(directory) {
        Some(name) => name,
        None => "fx"@,
    }
}

/// The entry of a generation of a data directory.
pub open spec fn ledger_entry(
    generation: QuotedGeneration,
    index: Seq<FxSession>,
    directory: Seq<char>,
    mode: CostMode,
) -> Option<EntryModel> {
    let home = attributed(generation.fact.created_at_ms, index, directory_project(directory));
    entry_of(generation.fact, home.0, home.1, mode, generation.quote)
}

/// The entries of the generations of a data directory, in order.
pub open spec fn ledger_entries(
    generations: Seq<QuotedGeneration>,
    index: Seq<FxSession>,
    directory: Seq<char>,
    mode: CostMode,
) -> Seq<EntryModel>
    decreases generations.len(),
{
    if generations.len() == 0 {
        Seq::empty()
    } else {
        let before = ledger_entries(generations.drop_last(), index, directory, mode);
        match ledger_entry(generations.last(), index, directory, mode) {
            Some(entry) => before.push(entry),
            None => before,
        }
    }
}

/// The entries of what was read from one data directory: the ledger gives every generation
/// exactly once, and the session logs attribute each generation to a session and a workspace.
pub fn read_data_dir(ledger: Ledger, mode: CostMode) -> (out: Vec<LoadedEntry>)
    ensures
        all_well_formed(out@),
        exists|index: Seq<FxSession>| #[trigger]
            is_session_index(ledger.sessions@, index) && entry_models(out@) == ledger_entries(
                ledger.generations@,
                index,
                ledger.directory@,
                mode,
            ),
{
    let sessions = load_session_index(ledger.sessions);
    let fallback = match name_of_path(ledger.directory.as_str()) {
        Some(name) => name,
        None => "fx".to_owned(),
    };
    let ghost all = ledger.generations@;
    let ghost directory = ledger.directory@;
    let mut rest = reversed(ledger.generations);
    let mut out: Vec<LoadedEntry> = Vec::new();
    let ghost mut n: int = 0;
    assert(all.take(0) =~= Seq::empty());
    assert(entry_models(out@) =~= Seq::empty());
    while rest.len() > 0
        invariant
            0 <= n <= all.len(),
            rest@ =~= all.skip(n).reverse(),
            fallback@ == directory_project(directory),
            all_well_formed(out@),
            entry_models(out@) == ledger_entries(all.take(n), sessions@, directory, mode),
        decreases rest@.len(),
    {
        if let Some(next) = rest.pop() {
            proof {
                assert(next == all[n]);
                assert(all.take(n + 1).drop_last() =~= all.take(n));
                n = n + 1;
            }
            let (session_id, project) = attribute_generation(
                &next.fact,
                &sessions,
                fallback.as_str(),
            );
            if let Some(entry) = loaded_entry(next.fact, session_id, project, mode, next.quote) {
                let ghost before = entry_models(out@);
                out.push(entry);
                assert(entry_models(out@) =~= before.push(entry.model()));
            }
        }
    }
    assert(all.take(n) =~= all);
    assert(is_session_index(ledger.sessions@, sessions@));
    out
}

/// What entries are told apart by: the id of the generation, or else everything that is known of
/// it.
pub open spec fn identity(entry: EntryModel) -> Seq<char> {
    match entry.id {
        Some(id) => if id.len() > 0 {
            "fx:"@ + id
        } else {
            full_identity(entry)
        },
        None => full_identity(entry),
    }
}

/// Everything that is known of an entry without an id.
pub open spec fn full_identity(entry: EntryModel) -> Seq<char> {
    joined(
        seq![
            "fx"@,
            ""@,
            entry.project,
            entry.session_id,
            entry.timestamp_text,
            decimal(entry.usage.input_tokens as nat),
            decimal(entry.usage.output_tokens as nat),
            decimal(entry.usage.cache_creation_input_tokens as nat),
            decimal(entry.usage.cache_read_input_tokens as nat),
        ],
        ":"@,
    )
}

/// What entries are told apart by. Generations have globally unique ids, so the id alone tells
/// whether a ledger was read twice or data directories overlap.
pub fn entry_id(entry: &LoadedEntry) -> (out: String)
    ensures
        out@ == identity(entry.model()),
{
    if let Some(id) = &entry.data.message.id {
        if !id.as_str().is_empty() {
            return concat2("fx:", id.as_str());
        }
    }
    let usage = &entry.data.message.usage;
    let mut parts: Vec<String> = Vec::new();
    parts.push("fx".to_owned());
    parts.push("".to_owned());
    parts.push(entry.project.clone());
    parts.push(entry.session_id.clone());
    parts.push(entry.data.timestamp.clone());
    parts.push(number(usage.input_tokens));
    parts.push(number(usage.output_tokens));
    parts.push(number(usage.cache_creation_input_tokens));
    parts.push(number(usage.cache_read_input_tokens));
    assert(texts(parts@) =~= seq![
        "fx"@,
        ""@,
        entry.project@,
        entry.session_id@,
        entry.data.timestamp@,
        decimal(usage.input_tokens as nat),
        decimal(usage.output_tokens as nat),
        decimal(usage.cache_creation_input_tokens as nat),
        decimal(usage.cache_read_input_tokens as nat),
    ]);
    join(&parts, ":")
}

/// Generations that have ids are told apart by their ids alone.
pub proof fn ids_tell_generations_apart(a: EntryModel, b: EntryModel)
    requires
        a.id matches Some(id) && id.len() > 0,
        b.id matches Some(id) && id.len() > 0,
    ensures
        identity(a) == identity(b) <==> a.id == b.id,
{
    let prefix = "fx:"@;
    if identity(a) == identity(b) {
        assert((prefix + a.id->0).skip(prefix.len() as int) =~= a.id->0);
        assert((prefix + b.id->0).skip(prefix.len() as int) =~= b.id->0);
    }
}

} // verus!
