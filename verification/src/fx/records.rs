//! The records of fx, and the entries that a report is made of.

use vstd::prelude::*;
use vstd::string::*;
use crate::cost::Cost;
use crate::order::{lemma_text_order, lemma_text_transitive, text_at_or_before, text_le};
use crate::sort::Ranked;

verus! {

/// One record of the usage ledger. Only `generation` records have a fact.
#[derive(Debug)]
pub struct FxLine {
    pub kind: Option<String>,
    pub fact: Option<FxGeneration>,
}

/// What a `generation` record says.
#[derive(Debug)]
pub struct FxGeneration {
    pub id: Option<String>,
    pub created_at_ms: u64,
    pub model: Option<String>,
    pub input_tokens: u64,
    pub output_tokens: u64,
    pub cache_read_tokens: u64,
    pub cache_write_tokens: u64,
    pub total_cost: Option<Cost>,
}

/// One event of a session log. Only `session_started` events start a session.
#[derive(Debug)]
pub struct FxEventLine {
    pub kind: Option<String>,
    pub payload: Option<FxSessionStarted>,
}

/// What a start event says of the session.
#[derive(Debug)]
pub struct FxSessionStarted {
    pub id: Option<String>,
    pub created_at_ms: u64,
    pub workspace_root: Option<String>,
}

/// The events in the log of one session directory.
#[derive(Debug)]
pub struct SessionLog {
    pub directory: String,
    pub events: Vec<FxEventLine>,
}

/// One session: its id, its workspace and when it started.
#[derive(Debug)]
pub struct FxSession {
    pub id: String,
    pub project: Option<String>,
    pub started_at_ms: u64,
}

/// Where the cost of an entry comes from.
#[derive(Debug, Clone, Copy, PartialEq, Eq, Structural)]
pub enum CostMode {
    /// The recorded cost where there is one, or else the price of the tokens.
    Auto,
    /// The price of the tokens.
    Calculate,
    /// The recorded cost.
    Display,
}

/// The four token counts of a generation.
#[derive(Debug, Clone, Copy, PartialEq, Eq, Structural)]
pub struct TokenUsageRaw {
    pub input_tokens: u64,
    pub output_tokens: u64,
    pub cache_creation_input_tokens: u64,
    pub cache_read_input_tokens: u64,
}

/// What a price list and a calendar are asked about a generation.
#[derive(Debug)]
pub struct Inquiry {
    pub model: Option<String>,
    pub usage: TokenUsageRaw,
    pub display_cost: Option<Cost>,
    pub timestamp: i64,
}

/// What a price list and a calendar say of a generation: the price of its tokens where its model
/// has one, the model where it should have a price and has none, the date, and the timestamp as
/// text.
#[derive(Debug)]
pub struct Quote {
    pub priced: Option<Cost>,
    pub missing_pricing_model: Option<String>,
    pub date: String,
    pub timestamp_text: String,
}

/// A generation with what is said of it.
#[derive(Debug)]
pub struct QuotedGeneration {
    pub fact: FxGeneration,
    pub quote: Quote,
}

/// What was read from one data directory.
#[derive(Debug)]
pub struct Ledger {
    pub directory: String,
    pub generations: Vec<QuotedGeneration>,
    pub sessions: Vec<SessionLog>,
}

/// The message part of an entry.
#[derive(Debug)]
pub struct UsageMessage {
    pub usage: TokenUsageRaw,
    pub model: Option<String>,
    pub id: Option<String>,
}

/// The recorded part of an entry.
#[derive(Debug)]
pub struct UsageEntry {
    pub session_id: Option<String>,
    pub timestamp: String,
    pub message: UsageMessage,
    pub cost_usd: Option<Cost>,
}

/// One generation as reports count it.
#[derive(Debug)]
pub struct LoadedEntry {
    pub data: UsageEntry,
    pub timestamp: i64,
    pub date: String,
    pub project: String,
    pub session_id: String,
    pub project_path: String,
    pub cost: Cost,
    pub model: Option<String>,
    pub missing_pricing_model: Option<String>,
}

/// A text that may be missing, by its characters.
pub open spec fn opt_view(text: Option<String>) -> Option<Seq<char>> {
    match text {
        Some(text) => Some(text@),
        None => None,
    }
}

/// An entry by its texts.
#[verifier::ext_equal]
pub struct EntryModel {
    pub id: Option<Seq<char>>,
    pub usage: TokenUsageRaw,
    pub cost_usd: Option<Cost>,
    pub timestamp_text: Seq<char>,
    pub timestamp: i64,
    pub date: Seq<char>,
    pub project: Seq<char>,
    pub session_id: Seq<char>,
    pub cost: Cost,
    pub model: Option<Seq<char>>,
    pub missing_pricing_model: Option<Seq<char>>,
}

impl LoadedEntry {
    /// The texts that an entry holds twice agree.
    pub open spec fn well_formed(self) -> bool {
        &&& self.project_path@ == self.project@
        &&& opt_view(self.data.session_id) == Some(self.session_id@)
        &&& opt_view(self.data.message.model) == opt_view(self.model)
    }

    /// The entry by its texts.
    pub open spec fn model(self) -> EntryModel {
        EntryModel {
            id: opt_view(self.data.message.id),
            usage: self.data.message.usage,
            cost_usd: self.data.cost_usd,
            timestamp_text: self.data.timestamp@,
            timestamp: self.timestamp,
            date: self.date@,
            project: self.project@,
            session_id: self.session_id@,
            cost: self.cost,
            model: opt_view(self.model),
            missing_pricing_model: opt_view(self.missing_pricing_model),
        }
    }
}

/// Entries by their texts.
pub open spec fn entry_models(entries: Seq<LoadedEntry>) -> Seq<EntryModel> {
    entries.map_values(|e: LoadedEntry| e.model())
}

/// The texts that the entries hold twice agree.
pub open spec fn all_well_formed(entries: Seq<LoadedEntry>) -> bool {
    forall|i: int| 0 <= i < entries.len() ==> (#[trigger] entries[i]).well_formed()
}

impl Ranked for LoadedEntry {
    open spec fn precedes(&self, other: &Self) -> bool {
        self.timestamp <= other.timestamp
    }

    proof fn rank_total(a: &Self, b: &Self) {
    }

    proof fn rank_transitive(a: &Self, b: &Self, c: &Self) {
    }

    fn at_or_before(&self, other: &Self) -> (r: bool) {
        self.timestamp <= other.timestamp
    }
}

impl Ranked for FxSession {
    open spec fn precedes(&self, other: &Self) -> bool {
        self.started_at_ms <= other.started_at_ms
    }

    proof fn rank_total(a: &Self, b: &Self) {
    }

    proof fn rank_transitive(a: &Self, b: &Self, c: &Self) {
    }

    fn at_or_before(&self, other: &Self) -> (r: bool) {
        self.started_at_ms <= other.started_at_ms
    }
}

impl Ranked for SessionLog {
    open spec fn precedes(&self, other: &Self) -> bool {
        text_le(self.directory@, other.directory@)
    }

    proof fn rank_total(a: &Self, b: &Self) {
        lemma_text_order(a.directory@, b.directory@);
    }

    proof fn rank_transitive(a: &Self, b: &Self, c: &Self) {
        lemma_text_transitive(a.directory@, b.directory@, c.directory@);
    }

    fn at_or_before(&self, other: &Self) -> (r: bool) {
        text_at_or_before(self.directory.as_str(), other.directory.as_str())
    }
}

} // verus!
