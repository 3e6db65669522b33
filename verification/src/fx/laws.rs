//! What the entries of a data directory say of its generations.

use vstd::prelude::*;
use vstd::string::*;
use crate::cost::Cost;
use crate::fx::parser::{
    best_session, directory_project, ledger_entries, the_latest_start_wins, NO_SESSION,
};
use crate::fx::records::{
    all_well_formed, entry_models, opt_view, CostMode, FxSession, LoadedEntry, QuotedGeneration,
};
use crate::sums::{lemma_sum_filter, lemma_sum_same, sum_by};

verus! {

/// The generation used tokens of some kind.
pub open spec fn used_tokens(generation: QuotedGeneration) -> bool {
    ||| generation.fact.input_tokens > 0
    ||| generation.fact.output_tokens > 0
    ||| generation.fact.cache_write_tokens > 0
    ||| generation.fact.cache_read_tokens > 0
}

/// The generations that used tokens, in order.
pub open spec fn counted(generations: Seq<QuotedGeneration>) -> Seq<QuotedGeneration> {
    generations.filter(|generation: QuotedGeneration| used_tokens(generation))
}

/// The entry says of the generation what was recorded and quoted of it: its four counts, its id,
/// model and time, and a cost that comes from where the mode asks for it.
pub open spec fn tells(entry: LoadedEntry, generation: QuotedGeneration, mode: CostMode) -> bool {
    let fact = generation.fact;
    let quote = generation.quote;
    let usage = entry.data.message.usage;
    &&& usage.input_tokens == fact.input_tokens
    &&& usage.output_tokens == fact.output_tokens
    &&& usage.cache_creation_input_tokens == fact.cache_write_tokens
    &&& usage.cache_read_input_tokens == fact.cache_read_tokens
    &&& opt_view(entry.data.message.id) == opt_view(fact.id)
    &&& entry.timestamp == fact.created_at_ms as i64
    &&& entry.data.timestamp@ == quote.timestamp_text@
    &&& entry.date@ == quote.date@
    &&& opt_view(entry.missing_pricing_model) == opt_view(quote.missing_pricing_model)
    &&& entry.data.cost_usd == fact.total_cost
    &&& entry.model is Some == fact.model is Some
    &&& fact.model is Some ==> entry.model->0@ == "[fx] "@ + fact.model->0@
    &&& opt_view(entry.data.message.model) == opt_view(entry.model)
    &&& mode != CostMode::Calculate && fact.total_cost is Some ==> entry.cost == fact.total_cost->0
    &&& mode == CostMode::Display && fact.total_cost is None ==> entry.cost.bits == 0
    &&& (mode == CostMode::Calculate || (mode == CostMode::Auto && fact.total_cost is None))
        ==> entry.cost == (if fact.model is Some && quote.priced is Some {
        quote.priced->0
    } else {
        Cost { bits: 0 }
    })
}

/// The session `k` started at or before the time `at`, no session started between the two, and
/// none earlier in the list started with it.
pub open spec fn is_latest(index: Seq<FxSession>, k: int, at: u64) -> bool {
    &&& 0 <= k < index.len()
    &&& index[k].started_at_ms <= at
    &&& forall|j: int|
        0 <= j < index.len() && (#[trigger] index[j]).started_at_ms <= at ==> index[j].started_at_ms
            < index[k].started_at_ms || (index[j].started_at_ms == index[k].started_at_ms && k <= j)
}

/// The entry stands under the session that started last before it, and under that session's
/// workspace; without a session it stands under none, and without a workspace under the name of
/// the data directory.
pub open spec fn stands_under(
    entry: LoadedEntry,
    at: u64,
    index: Seq<FxSession>,
    directory: Seq<char>,
) -> bool {
    &&& entry.data.session_id is Some
    &&& entry.data.session_id->0@ == entry.session_id@
    &&& entry.project_path@ == entry.project@
    &&& (forall|j: int| 0 <= j < index.len() ==> (#[trigger] index[j]).started_at_ms > at)
        ==> entry.session_id@ == NO_SESSION@ && entry.project@ == directory_project(directory)
    &&& forall|k: int| #[trigger]
        is_latest(index, k, at) ==> entry.session_id@ == index[k].id@ && entry.project@ == (
        match index[k].project {
            Some(project) => project@,
            None => directory_project(directory),
        })
}

proof fn lemma_attributed(index: Seq<FxSession>, at: u64, k: int)
    requires
        is_latest(index, k, at),
    ensures
        best_session(index, at) == Some(k),
{
    the_latest_start_wins(index, at);
    let best = best_session(index, at);
    assert(best is Some) by {
        assert(index[k].started_at_ms <= at);
    }
    let b = best->0;
    assert(index[b].started_at_ms <= at);
    assert(index[k].started_at_ms <= index[b].started_at_ms);
    if k < b {
        assert(index[k].started_at_ms != index[b].started_at_ms);
    }
}

/// Every generation that used tokens has its entry, in the order of the ledger, and no other entry
/// is made: each entry tells of its generation and stands under the right session.
pub proof fn every_generation_has_its_entry(
    generations: Seq<QuotedGeneration>,
    index: Seq<FxSession>,
    directory: Seq<char>,
    mode: CostMode,
    entries: Seq<LoadedEntry>,
)
    requires
        all_well_formed(entries),
        entry_models(entries) == ledger_entries(generations, index, directory, mode),
    ensures
        entries.len() == counted(generations).len(),
        forall|i: int|
            0 <= i < entries.len() ==> tells(#[trigger] entries[i], counted(generations)[i], mode)
                && stands_under(
                entries[i],
                counted(generations)[i].fact.created_at_ms,
                index,
                directory,
            ),
    decreases generations.len(),
{
    let pred = |generation: QuotedGeneration| used_tokens(generation);
    if generations.len() == 0 {
        generations.lemma_filter_len(pred);
        assert(entry_models(entries).len() == 0);
    } else {
        let rest = generations.drop_last();
        let last = generations.last();
        assert(generations =~= rest.push(last));
        rest.lemma_filter_push(last, pred);
        if used_tokens(last) {
            let front = entries.drop_last();
            assert(entry_models(entries).len() == entries.len());
            assert(entry_models(front) =~= entry_models(entries).drop_last());
            assert(entry_models(entries).drop_last() =~= ledger_entries(
                rest,
                index,
                directory,
                mode,
            ));
            assert forall|i: int| 0 <= i < front.len() implies (#[trigger] front[i]).well_formed() by {
                assert(front[i] == entries[i]);
            }
            every_generation_has_its_entry(rest, index, directory, mode, front);
            let entry = entries.last();
            assert(entry_models(entries).last() == entry.model());
            assert(entries[entries.len() - 1].well_formed());
            let at = last.fact.created_at_ms;
            assert forall|k: int| #[trigger] is_latest(index, k, at) implies entry.session_id@
                == index[k].id@ && entry.project@ == (match index[k].project {
                Some(project) => project@,
                None => directory_project(directory),
            }) by {
                lemma_attributed(index, at, k);
            }
            the_latest_start_wins(index, at);
            assert(tells(entry, last, mode));
            assert(stands_under(entry, at, index, directory));
            assert forall|i: int| 0 <= i < entries.len() implies tells(
                #[trigger] entries[i],
                counted(generations)[i],
                mode,
            ) && stands_under(
                entries[i],
                counted(generations)[i].fact.created_at_ms,
                index,
                directory,
            ) by {
                if i < front.len() {
                    assert(front[i] == entries[i]);
                    assert(counted(rest)[i] == counted(generations)[i]);
                }
            }
        } else {
            every_generation_has_its_entry(rest, index, directory, mode, entries);
        }
    }
}

/// Loading loses and invents no tokens: for each of the four counts, the entries of a data
/// directory add up to its generations.
pub proof fn entries_add_up_to_the_generations(
    generations: Seq<QuotedGeneration>,
    index: Seq<FxSession>,
    directory: Seq<char>,
    mode: CostMode,
    entries: Seq<LoadedEntry>,
)
    requires
        all_well_formed(entries),
        entry_models(entries) == ledger_entries(generations, index, directory, mode),
    ensures
        sum_by(entries, |e: LoadedEntry| e.data.message.usage.input_tokens as nat) == sum_by(
            generations,
            |g: QuotedGeneration| g.fact.input_tokens as nat,
        ),
        sum_by(entries, |e: LoadedEntry| e.data.message.usage.output_tokens as nat) == sum_by(
            generations,
            |g: QuotedGeneration| g.fact.output_tokens as nat,
        ),
        sum_by(entries, |e: LoadedEntry| e.data.message.usage.cache_creation_input_tokens as nat)
            == sum_by(generations, |g: QuotedGeneration| g.fact.cache_write_tokens as nat),
        sum_by(entries, |e: LoadedEntry| e.data.message.usage.cache_read_input_tokens as nat)
            == sum_by(generations, |g: QuotedGeneration| g.fact.cache_read_tokens as nat),
{
    every_generation_has_its_entry(generations, index, directory, mode, entries);
    let pred = |generation: QuotedGeneration| used_tokens(generation);
    let kept = counted(generations);
    let input = |g: QuotedGeneration| g.fact.input_tokens as nat;
    let output = |g: QuotedGeneration| g.fact.output_tokens as nat;
    let written = |g: QuotedGeneration| g.fact.cache_write_tokens as nat;
    let read = |g: QuotedGeneration| g.fact.cache_read_tokens as nat;
    let entry_input = |e: LoadedEntry| e.data.message.usage.input_tokens as nat;
    let entry_output = |e: LoadedEntry| e.data.message.usage.output_tokens as nat;
    let entry_written = |e: LoadedEntry| e.data.message.usage.cache_creation_input_tokens as nat;
    let entry_read = |e: LoadedEntry| e.data.message.usage.cache_read_input_tokens as nat;
    assert forall|i: int| 0 <= i < entries.len() implies tells(
        #[trigger] entries[i],
        kept[i],
        mode,
    ) by {}
    lemma_sum_same(entries, kept, entry_input, input);
    lemma_sum_same(entries, kept, entry_output, output);
    lemma_sum_same(entries, kept, entry_written, written);
    lemma_sum_same(entries, kept, entry_read, read);
    lemma_sum_filter(generations, pred, input);
    lemma_sum_filter(generations, pred, output);
    lemma_sum_filter(generations, pred, written);
    lemma_sum_filter(generations, pred, read);
}

} // verus!
