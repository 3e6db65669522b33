//! Publishing a snapshot: whether it has to be written, and the git commands that follow.

use vstd::prelude::*;
use vstd::string::*;
use crate::order::{lemma_text_order, lemma_text_transitive, text_at_or_before, text_le};
use crate::sort::{is_stable_sort, stable_sort, Ranked};
use crate::sync::repo::{address, repo_url, SyncError};
use crate::sync::snapshot::MachineSnapshot;
use crate::text::{concat2, texts, trim, trimmed};

verus! {

/// A parsed JSON document.
#[verifier::external_type_specification]
#[verifier::external_body]
pub struct ExJsonValue(serde_json::Value);

/// What the JSON parser reports of a text that is not JSON.
#[verifier::external_type_specification]
#[verifier::external_body]
pub struct ExJsonError(serde_json::Error);

/// The document that a text holds, where it is JSON: what `serde_json::from_str` returns.
pub uninterp spec fn json_document(text: Seq<char>) -> Option<serde_json::Value>;

/// The fields of a JSON object; `None` for any other document.
pub uninterp spec fn json_fields(document: serde_json::Value) -> Option<
    Map<Seq<char>, serde_json::Value>,
>;

/// A document without one field: what removing the field from its object leaves.
pub uninterp spec fn json_without(document: serde_json::Value, field: Seq<char>) -> serde_json::Value;

/// Two documents are equal: what `==` of `serde_json::Value` returns.
pub uninterp spec fn json_same(a: serde_json::Value, b: serde_json::Value) -> bool;

/// `serde_json::from_str` into a `serde_json::Value`: the document, or an error where the text is
/// not JSON. Which of the two depends on the text alone.
#[verifier::external_body]
fn parse_json(text: &str) -> (out: Result<serde_json::Value, serde_json::Error>)
    ensures
        match out {
            Ok(document) => json_document(text@) == Some(document),
            Err(_) => json_document(text@) is None,
        },
{
    serde_json::from_str::<serde_json::Value>(text)
}

/// `serde_json::Map::remove` on the fields of an object: the field is gone and the others stay.
/// A document that is not an object stays as it is.
#[verifier::external_body]
fn without_field(document: serde_json::Value, field: &str) -> (out: serde_json::Value)
    ensures
        out == json_without(document, field@),
        match json_fields(document) {
            Some(fields) => json_fields(out) == Some(fields.remove(field@)),
            None => out == document,
        },
{
    let mut document = document;
    if let Some(fields) = document.as_object_mut() {
        fields.remove(field);
    }
    document
}

/// Two objects have fields of the same names, and equal documents under each name.
pub open spec fn same_fields(
    a: Map<Seq<char>, serde_json::Value>,
    b: Map<Seq<char>, serde_json::Value>,
) -> bool {
    a.dom() == b.dom() && forall|name: Seq<char>|
        a.contains_key(name) ==> json_same(#[trigger] a[name], b[name])
}

/// `==` of `serde_json::Value`: a document equals itself, an object equals no other kind of
/// document, and two objects are equal where they have fields of the same names with equal
/// documents; so objects with the very same fields are equal.
#[verifier::external_body]
fn same_json(a: &serde_json::Value, b: &serde_json::Value) -> (out: bool)
    ensures
        out == json_same(*a, *b),
        *a == *b ==> out,
        json_fields(*a) is Some && json_fields(*a) == json_fields(*b) ==> out,
        json_fields(*a) is Some != json_fields(*b) is Some ==> !out,
        json_fields(*a) is Some && json_fields(*b) is Some ==> out == same_fields(
            json_fields(*a)->0,
            json_fields(*b)->0,
        ),
{
    a == b
}

/// The field with the time of publication, which is no part of the usage data.
pub const GENERATED_AT: &'static str = "generated_at";

/// Two snapshots hold the same usage data: both are JSON, and they are equal apart from the time
/// of publication.
pub open spec fn same_usage(previous: Seq<char>, current: Seq<char>) -> bool {
    match (json_document(previous), json_document(current)) {
        (Some(a), Some(b)) => json_same(
            json_without(a, GENERATED_AT@),
            json_without(b, GENERATED_AT@),
        ),
        _ => false,
    }
}

/// Both texts are JSON objects, and their fields are the same apart from the time of publication.
pub open spec fn differ_in_time_only(previous: Seq<char>, current: Seq<char>) -> bool {
    match (json_document(previous), json_document(current)) {
        (Some(a), Some(b)) => {
            &&& json_fields(a) is Some
            &&& json_fields(b) is Some
            &&& json_fields(a)->0.remove(GENERATED_AT@) == json_fields(b)->0.remove(GENERATED_AT@)
        },
        _ => false,
    }
}

/// Both texts are JSON objects, and their fields differ in more than the time of publication: in
/// their names, or in what stands under one of them.
pub open spec fn differ_in_usage(previous: Seq<char>, current: Seq<char>) -> bool {
    match (json_document(previous), json_document(current)) {
        (Some(a), Some(b)) => {
            &&& json_fields(a) is Some
            &&& json_fields(b) is Some
            &&& !same_fields(
                json_fields(a)->0.remove(GENERATED_AT@),
                json_fields(b)->0.remove(GENERATED_AT@),
            )
        },
        _ => false,
    }
}

/// Whether two documents are equal apart from the time of publication.
pub fn same_apart_from_time(previous: serde_json::Value, current: serde_json::Value) -> (r: bool)
    ensures
        r == json_same(json_without(previous, GENERATED_AT@), json_without(current, GENERATED_AT@)),
        previous == current ==> r,
        json_fields(previous) is Some && json_fields(current) is Some && json_fields(
            previous,
        )->0.remove(GENERATED_AT@) == json_fields(current)->0.remove(GENERATED_AT@) ==> r,
        json_fields(previous) is Some != json_fields(current) is Some ==> !r,
        json_fields(previous) is Some && json_fields(current) is Some ==> r == same_fields(
            json_fields(previous)->0.remove(GENERATED_AT@),
            json_fields(current)->0.remove(GENERATED_AT@),
        ),
{
    let a = without_field(previous, GENERATED_AT);
    let b = without_field(current, GENERATED_AT);
    same_json(&a, &b)
}

/// Whether the published file holds the same usage data as the snapshot that would replace it. A
/// file that is missing or is not JSON does not.
pub fn is_unchanged(previous: Option<&str>, current: &str) -> (r: bool)
    ensures
        match previous {
            Some(text) => {
                &&& r == same_usage(text@, current@)
                &&& differ_in_time_only(text@, current@) ==> r
                &&& differ_in_usage(text@, current@) ==> !r
                &&& text@ == current@ && json_document(current@) is Some ==> r
                &&& r ==> json_document(text@) is Some && json_document(current@) is Some
            },
            None => !r,
        },
{
    match previous {
        Some(text) => match (parse_json(text), parse_json(current)) {
            (Ok(a), Ok(b)) => same_apart_from_time(a, b),
            _ => false,
        },
        None => false,
    }
}

/// What becomes of a snapshot.
#[derive(Debug, Clone, Copy, PartialEq, Eq, Structural)]
pub enum Publication {
    /// The published file stays as it is.
    Nothing,
    /// The file is written in the working copy.
    Write,
    /// The file is written, committed and pushed.
    WriteAndPush,
}

/// What becomes of a snapshot: nothing where the usage data has not changed.
pub fn publication(unchanged: bool, no_push: bool) -> (out: Publication)
    ensures
        out == (if unchanged {
            Publication::Nothing
        } else if no_push {
            Publication::Write
        } else {
            Publication::WriteAndPush
        }),
{
    if unchanged {
        Publication::Nothing
    } else if no_push {
        Publication::Write
    } else {
        Publication::WriteAndPush
    }
}

/// A fresh snapshot of a machine.
pub fn new_snapshot(
    machine: String,
    generated_at: String,
    days: Vec<crate::sync::snapshot::Day<crate::cost::Cost>>,
) -> (out: MachineSnapshot)
    ensures
        out == (MachineSnapshot { version: 1, machine, generated_at, days }),
{
    MachineSnapshot { version: 1, machine, generated_at, days }
}

impl Ranked for MachineSnapshot {
    open spec fn precedes(&self, other: &Self) -> bool {
        text_le(self.machine@, other.machine@)
    }

    proof fn rank_total(a: &Self, b: &Self) {
        lemma_text_order(a.machine@, b.machine@);
    }

    proof fn rank_transitive(a: &Self, b: &Self, c: &Self) {
        lemma_text_transitive(a.machine@, b.machine@, c.machine@);
    }

    fn at_or_before(&self, other: &Self) -> (r: bool) {
        text_at_or_before(self.machine.as_str(), other.machine.as_str())
    }
}

/// The snapshots of a report, our own among them, by machine.
pub fn gather_snapshots(own: MachineSnapshot, others: Vec<MachineSnapshot>) -> (out: Vec<
    MachineSnapshot,
>)
    ensures
        is_stable_sort(seq![own] + others@, out@),
{
    let ghost input = seq![own] + others@;
    let mut all: Vec<MachineSnapshot> = Vec::new();
    let mut others = others;
    all.push(own);
    all.append(&mut others);
    assert(all@ =~= input);
    stable_sort(all)
}

/// The machines of snapshots, in order.
pub fn machine_names(snapshots: &Vec<MachineSnapshot>) -> (out: Vec<String>)
    ensures
        out@ == snapshots@.map_values(|snapshot: MachineSnapshot| snapshot.machine),
{
    let mut out: Vec<String> = Vec::new();
    let mut i: usize = 0;
    while i < snapshots.len()
        invariant
            i <= snapshots@.len(),
            out@ =~= snapshots@.take(i as int).map_values(
                |snapshot: MachineSnapshot| snapshot.machine,
            ),
        decreases snapshots@.len() - i,
    {
        out.push(snapshots[i].machine.clone());
        i = i + 1;
    }
    assert(snapshots@.take(snapshots@.len() as int) =~= snapshots@);
    out
}

/// What came of running git.
#[derive(Debug)]
pub enum GitEvent {
    /// The program could not be started.
    NotStarted { error: String },
    /// The program ended, with or without success.
    Ended { success: bool, stdout: String, stderr: String },
}

/// What a git command gives: what it printed, or why it failed. What it wrote to its error
/// output is trimmed.
pub open spec fn git_output(event: GitEvent) -> Result<Seq<char>, (bool, Seq<char>)> {
    match event {
        GitEvent::NotStarted { error } => Err((true, error@)),
        GitEvent::Ended { success, stdout, stderr } => if success {
            Ok(stdout@)
        } else {
            Err((false, trimmed(stderr@)))
        },
    }
}

/// What a git command gives.
pub fn run_git(event: GitEvent) -> (out: Result<String, SyncError>)
    ensures
        match (git_output(event), out) {
            (Ok(printed), Ok(text)) => text@ == printed,
            (Err((true, reason)), Err(SyncError::GitMissing { error })) => error@ == reason,
            (Err((false, reason)), Err(SyncError::GitFailed { output })) => output@ == reason,
            _ => false,
        },
{
    match event {
        GitEvent::NotStarted { error } => Err(SyncError::GitMissing { error }),
        GitEvent::Ended { success, stdout, stderr } => {
            if success {
                Ok(stdout)
            } else {
                Err(SyncError::GitFailed { output: trim(stderr.as_str()) })
            }
        },
    }
}

/// The words of a git command.
pub open spec fn words(list: Seq<&str>) -> Seq<Seq<char>> {
    list.map_values(|word: &str| word@)
}

fn command(list: &Vec<&str>) -> (out: Vec<String>)
    ensures
        texts(out@) == words(list@),
{
    let mut out: Vec<String> = Vec::new();
    let mut i: usize = 0;
    while i < list.len()
        invariant
            i <= list@.len(),
            texts(out@) =~= words(list@.take(i as int)),
        decreases list@.len() - i,
    {
        let word: &str = list[i];
        let ghost before = texts(out@);
        out.push(word.to_owned());
        assert(texts(out@) =~= before.push(word@));
        i = i + 1;
    }
    assert(list@.take(list@.len() as int) =~= list@);
    out
}

/// The command that clones the repository, where there is no working copy yet.
pub fn ensure_repo(has_working_copy: bool, work_dir: &str, repo_spec: &str) -> (out: Option<
    Vec<String>,
>)
    ensures
        match out {
            Some(args) => !has_working_copy && texts(args@) == seq![
                "clone"@,
                address(repo_spec@),
                work_dir@,
            ],
            None => has_working_copy,
        },
{
    if has_working_copy {
        None
    } else {
        let url = repo_url(repo_spec);
        let list = vec!["clone", url.as_str(), work_dir];
        let args = command(&list);
        assert(words(list@) =~= seq!["clone"@, address(repo_spec@), work_dir@]);
        Some(args)
    }
}

/// The command that refreshes the working copy. Its failure is of no consequence.
pub fn refresh_command() -> (out: Vec<String>)
    ensures
        texts(out@) == seq!["pull"@, "--ff-only"@],
{
    let list = vec!["pull", "--ff-only"];
    assert(words(list@) =~= seq!["pull"@, "--ff-only"@]);
    command(&list)
}

/// How far publishing has come: the git command that is due, or the end.
#[derive(Debug, Clone, Copy, PartialEq, Eq, Structural)]
pub enum PushState {
    Stage,
    LookForChanges,
    Commit,
    Push,
    Rebase,
    PushAgain,
    Done,
}

/// The state in which publishing starts.
pub fn commit_and_push() -> (out: PushState)
    ensures
        out == PushState::Stage,
{
    PushState::Stage
}

/// The words of the command that is due in a state.
pub open spec fn due_command(state: PushState, machine: Seq<char>) -> Option<Seq<Seq<char>>> {
    match state {
        PushState::Stage => Some(seq!["add"@, "-A"@]),
        PushState::LookForChanges => Some(seq!["diff"@, "--cached"@, "--quiet"@]),
        PushState::Commit => Some(
            seq![
                "-c"@,
                "user.name=ccusage"@,
                "-c"@,
                "user.email=ccusage@localhost"@,
                "commit"@,
                "-m"@,
                "sync: "@ + machine,
            ],
        ),
        PushState::Push => Some(seq!["push"@, "origin"@, "HEAD"@]),
        PushState::Rebase => Some(seq!["pull"@, "--rebase"@]),
        PushState::PushAgain => Some(seq!["push"@, "origin"@, "HEAD"@]),
        PushState::Done => None,
    }
}

/// The command that is due in a state.
pub fn push_command(state: &PushState, machine: &str) -> (out: Option<Vec<String>>)
    ensures
        match out {
            Some(args) => due_command(*state, machine@) == Some(texts(args@)),
            None => due_command(*state, machine@) is None,
        },
{
    let message = concat2("sync: ", machine);
    let list = match state {
        PushState::Stage => vec!["add", "-A"],
        PushState::LookForChanges => vec!["diff", "--cached", "--quiet"],
        PushState::Commit => vec![
            "-c",
            "user.name=ccusage",
            "-c",
            "user.email=ccusage@localhost",
            "commit",
            "-m",
            message.as_str(),
        ],
        PushState::Push => vec!["push", "origin", "HEAD"],
        PushState::Rebase => vec!["pull", "--rebase"],
        PushState::PushAgain => vec!["push", "origin", "HEAD"],
        PushState::Done => {
            return None;
        },
    };
    assert(words(list@) =~= due_command(*state, machine@)->0);
    Some(command(&list))
}

/// The state after a command that has ended. The look for changes succeeds where there are none;
/// a rejected push is tried once more after a rebase.
pub open spec fn state_after(state: PushState, success: bool) -> Option<PushState> {
    match (state, success) {
        (PushState::Stage, true) => Some(PushState::LookForChanges),
        (PushState::LookForChanges, true) => Some(PushState::Push),
        (PushState::LookForChanges, false) => Some(PushState::Commit),
        (PushState::Commit, true) => Some(PushState::Push),
        (PushState::Push, true) => Some(PushState::Done),
        (PushState::Push, false) => Some(PushState::Rebase),
        (PushState::Rebase, true) => Some(PushState::PushAgain),
        (PushState::PushAgain, true) => Some(PushState::Done),
        (PushState::Done, _) => Some(PushState::Done),
        _ => None,
    }
}

/// The state of which only the exit status matters.
pub open spec fn is_probe(state: PushState) -> bool {
    state == PushState::LookForChanges || state == PushState::Push
}

/// The state after a command, or why publishing fails: the command could not be started, or one
/// that has to succeed did not.
pub fn push_step(state: PushState, event: GitEvent) -> (out: Result<PushState, SyncError>)
    ensures
        match (event, out) {
            (GitEvent::NotStarted { error }, Ok(next)) => state == PushState::Done && next == state,
            (GitEvent::NotStarted { error }, Err(SyncError::GitNotStarted { error: reason })) => {
                is_probe(state) && reason@ == error@
            },
            (GitEvent::NotStarted { error }, Err(SyncError::GitMissing { error: reason })) => {
                !is_probe(state) && state != PushState::Done && reason@ == error@
            },
            (GitEvent::Ended { success, stdout, stderr }, Ok(next)) => state_after(state, success)
                == Some(next),
            (
                GitEvent::Ended { success, stdout, stderr },
                Err(SyncError::GitFailed { output }),
            ) => state_after(state, success) is None && output@ == trimmed(stderr@),
            _ => false,
        },
{
    match state {
        PushState::Done => Ok(PushState::Done),
        PushState::LookForChanges => match event {
            GitEvent::NotStarted { error } => Err(SyncError::GitNotStarted { error }),
            GitEvent::Ended { success, stdout, stderr } => Ok(
                if success {
                    PushState::Push
                } else {
                    PushState::Commit
                },
            ),
        },
        PushState::Push => match event {
            GitEvent::NotStarted { error } => Err(SyncError::GitNotStarted { error }),
            GitEvent::Ended { success, stdout, stderr } => Ok(
                if success {
                    PushState::Done
                } else {
                    PushState::Rebase
                },
            ),
        },
        _ => match run_git(event) {
            Ok(_) => Ok(
                match state {
                    PushState::Stage => PushState::LookForChanges,
                    PushState::Commit => PushState::Push,
                    PushState::Rebase => PushState::PushAgain,
                    _ => PushState::Done,
                },
            ),
            Err(error) => Err(error),
        },
    }
}

/// How many commands publishing can still need.
pub open spec fn commands_left(state: PushState) -> nat {
    match state {
        PushState::Stage => 6,
        PushState::LookForChanges => 5,
        PushState::Commit => 4,
        PushState::Push => 3,
        PushState::Rebase => 2,
        PushState::PushAgain => 1,
        PushState::Done => 0,
    }
}

/// Publishing ends: each command that leads on brings it nearer to its end.
pub proof fn publishing_ends(state: PushState, success: bool)
    requires
        state != PushState::Done,
    ensures
        state_after(state, success) matches Some(next) ==> commands_left(next) < commands_left(
            state,
        ),
        commands_left(state) <= 6,
{
}

/// Publishing is done only when a push has succeeded.
pub proof fn done_means_pushed(state: PushState, success: bool, machine: Seq<char>)
    requires
        state != PushState::Done,
        state_after(state, success) == Some(PushState::Done),
    ensures
        success,
        due_command(state, machine) == Some(seq!["push"@, "origin"@, "HEAD"@]),
{
}

/// Changes that were found are committed in the name of the machine before they are pushed, and a
/// push that was rejected is tried again once the machine has caught up. Without changes nothing is
/// committed, and any other command that fails ends publishing.
pub proof fn changes_are_committed_and_pushed(machine: Seq<char>, state: PushState)
    ensures
        ({
            let next = state_after(PushState::LookForChanges, false);
            let words = due_command(next->0, machine)->0;
            &&& next is Some
            &&& words.contains("commit"@)
            &&& words.last() == "sync: "@ + machine
            &&& state_after(next->0, true) == state_after(PushState::LookForChanges, true)
        }),
        ({
            let next = state_after(PushState::LookForChanges, true);
            &&& next is Some
            &&& due_command(next->0, machine) == Some(seq!["push"@, "origin"@, "HEAD"@])
        }),
        ({
            let rejected = state_after(PushState::Push, false);
            let caught_up = state_after(rejected->0, true);
            &&& rejected is Some
            &&& due_command(rejected->0, machine) == Some(seq!["pull"@, "--rebase"@])
            &&& caught_up is Some
            &&& due_command(caught_up->0, machine) == due_command(PushState::Push, machine)
        }),
        state_after(state, false) is Some <==> state == PushState::LookForChanges || state
            == PushState::Push || state == PushState::Done,
        state_after(state, true) is Some,
{
    let words = due_command(PushState::Commit, machine)->0;
    assert(words[4] == "commit"@);
}

} // verus!
