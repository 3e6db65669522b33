//! What is read out of the files of a data directory: lines, generations and sessions.

use vstd::prelude::*;
use vstd::string::*;
use vstd::utf8::*;
use crate::fx::lines::{
    generation_marks, holds, holds_all, session_marks, split_lines, wanted_lines, NEWLINE,
};
use crate::fx::loader::{first_of_each, is_known};
use crate::fx::parser::{
    directory_project, full_identity, generations_of, identity, is_session_index, logged_sessions, sessions_of,
};
use crate::fx::records::{
    EntryModel, FxEventLine, FxGeneration, FxLine, FxSession, LoadedEntry, SessionLog,
};
use crate::paths::{components, path_components};
use crate::places::lemma_pieces_push;
use crate::sort::{is_stable_sort, Ranked};
use crate::text::{decimal, digit, joined, pieces};

verus! {

/// Lines one after the other, with a line break between two.
pub open spec fn with_breaks(lines: Seq<Seq<u8>>) -> Seq<u8>
    decreases lines.len(),
{
    if lines.len() == 0 {
        Seq::empty()
    } else if lines.len() == 1 {
        lines[0]
    } else {
        with_breaks(lines.drop_last()).push(NEWLINE) + lines.last()
    }
}

/// Splitting into lines loses nothing but the line breaks: the lines with breaks between them are
/// the content, and no line has a break in it.
pub proof fn lines_come_back_together(content: Seq<u8>)
    ensures
        with_breaks(split_lines(content)) == content,
        split_lines(content).len() > 0,
        forall|i: int, k: int|
            0 <= i < split_lines(content).len() && 0 <= k < split_lines(content)[i].len()
                ==> #[trigger] split_lines(content)[i][k] != NEWLINE,
    decreases content.len(),
{
    let lines = split_lines(content);
    if content.len() == 0 {
        assert(lines[0] =~= Seq::empty());
        assert(with_breaks(lines) =~= content);
    } else {
        let rest = content.drop_last();
        let last = content.last();
        let before = split_lines(rest);
        lines_come_back_together(rest);
        assert(content =~= rest.push(last));
        if last == NEWLINE {
            assert(lines.drop_last() =~= before);
            assert(with_breaks(lines) =~= with_breaks(before).push(NEWLINE));
            assert forall|i: int, k: int|
                0 <= i < lines.len() && 0 <= k < lines[i].len() implies #[trigger] lines[i][k]
                != NEWLINE by {
                assert(lines[i] == before[i]);
                assert(before[i][k] != NEWLINE);
            }
        } else {
            let n = before.len() - 1;
            assert(lines.drop_last() =~= before.drop_last());
            assert(lines.last() =~= before.last().push(last));
            if n == 0 {
                assert(with_breaks(lines) =~= before[0].push(last));
            } else {
                assert(with_breaks(lines) =~= with_breaks(before).push(last));
            }
            assert forall|i: int, k: int|
                0 <= i < lines.len() && 0 <= k < lines[i].len() implies #[trigger] lines[i][k]
                != NEWLINE by {
                if i < n {
                    assert(lines[i] == lines.drop_last()[i]);
                    assert(before[i] == before.drop_last()[i]);
                    assert(before[i][k] != NEWLINE);
                } else if k < before[n].len() {
                    assert(before[n][k] != NEWLINE);
                }
            }
        }
    }
}

/// The record tells of a generation, and when it was.
pub open spec fn tells_generation(record: FxLine) -> bool {
    &&& record.kind is Some
    &&& record.kind->0@ == "generation"@
    &&& record.fact is Some
    &&& record.fact->0.created_at_ms != 0
}

/// Every record of a generation is read, in order, as it was recorded, and no other is.
pub proof fn every_generation_is_read(records: Seq<FxLine>, out: Seq<FxGeneration>)
    requires
        out == generations_of(records),
    ensures
        ({
            let kept = records.filter(|record: FxLine| tells_generation(record));
            &&& out.len() == kept.len()
            &&& forall|i: int| 0 <= i < out.len() ==> #[trigger] out[i] == kept[i].fact->0
        }),
    decreases records.len(),
{
    let pred = |record: FxLine| tells_generation(record);
    if records.len() == 0 {
        records.lemma_filter_len(pred);
    } else {
        let rest = records.drop_last();
        every_generation_is_read(rest, generations_of(rest));
        assert(records =~= rest.push(records.last()));
        rest.lemma_filter_push(records.last(), pred);
    }
}

/// The event tells of the start of a session, its id and when it was.
pub open spec fn tells_start(event: FxEventLine) -> bool {
    &&& event.kind is Some
    &&& event.kind->0@ == "session_started"@
    &&& event.payload is Some
    &&& event.payload->0.id is Some
    &&& event.payload->0.created_at_ms != 0
}

/// The session is the one that the event tells of.
pub open spec fn is_told_by(session: FxSession, event: FxEventLine) -> bool {
    &&& tells_start(event)
    &&& session.id == event.payload->0.id->0
    &&& session.project == event.payload->0.workspace_root
    &&& session.started_at_ms == event.payload->0.created_at_ms
}

/// Every event that starts a session is read, in order, with the session's id, workspace and
/// start, and no other is.
pub proof fn every_start_is_read(events: Seq<FxEventLine>, out: Seq<FxSession>)
    requires
        out == sessions_of(events),
    ensures
        ({
            let kept = events.filter(|event: FxEventLine| tells_start(event));
            &&& out.len() == kept.len()
            &&& forall|i: int| 0 <= i < out.len() ==> is_told_by(#[trigger] out[i], kept[i])
        }),
    decreases events.len(),
{
    let pred = |event: FxEventLine| tells_start(event);
    if events.len() == 0 {
        events.lemma_filter_len(pred);
    } else {
        let rest = events.drop_last();
        every_start_is_read(rest, sessions_of(rest));
        assert(events =~= rest.push(events.last()));
        rest.lemma_filter_push(events.last(), pred);
    }
}

/// The log has an event that tells of the session.
pub open spec fn is_logged(session: FxSession, log: SessionLog) -> bool {
    exists|e: int| 0 <= e < log.events@.len() && is_told_by(session, #[trigger] log.events@[e])
}

proof fn lemma_session_logged(log: SessionLog, i: int)
    requires
        0 <= i < sessions_of(log.events@).len(),
    ensures
        is_logged(sessions_of(log.events@)[i], log),
{
    let events = log.events@;
    let pred = |event: FxEventLine| tells_start(event);
    every_start_is_read(events, sessions_of(events));
    let kept = events.filter(pred);
    assert(is_told_by(sessions_of(events)[i], kept[i]));
    events.lemma_filter_contains_rev(pred, kept[i]);
    let e = choose|e: int| 0 <= e < events.len() && events[e] == kept[i];
    assert(is_told_by(sessions_of(events)[i], events[e]));
}

proof fn lemma_start_kept(events: Seq<FxEventLine>, e: int, session: FxSession)
    requires
        0 <= e < events.len(),
        is_told_by(session, events[e]),
    ensures
        sessions_of(events).contains(session),
    decreases events.len(),
{
    let rest = events.drop_last();
    let all = sessions_of(events);
    if e < rest.len() {
        lemma_start_kept(rest, e, session);
        let k = choose|k: int| 0 <= k < sessions_of(rest).len() && sessions_of(rest)[k] == session;
        assert(all[k] == session);
    } else {
        assert(all[all.len() - 1] == session);
    }
}

proof fn lemma_logged(logs: Seq<SessionLog>, session: FxSession)
    ensures
        logged_sessions(logs).contains(session) <==> exists|d: int|
            0 <= d < logs.len() && is_logged(session, #[trigger] logs[d]),
    decreases logs.len(),
{
    if logs.len() > 0 {
        let rest = logs.drop_last();
        let last = logs.last();
        let before = logged_sessions(rest);
        let own = sessions_of(last.events@);
        let all = logged_sessions(logs);
        let n = logs.len() - 1;
        lemma_logged(rest, session);
        if all.contains(session) {
            let k = choose|k: int| 0 <= k < all.len() && all[k] == session;
            if k < before.len() {
                assert(before[k] == session);
                assert(before.contains(session));
                let d = choose|d: int| 0 <= d < rest.len() && is_logged(session, #[trigger] rest[d]);
                assert(is_logged(session, logs[d]));
            } else {
                lemma_session_logged(last, k - before.len());
                assert(is_logged(session, logs[n]));
            }
        }
        if exists|d: int| 0 <= d < logs.len() && is_logged(session, #[trigger] logs[d]) {
            let d = choose|d: int| 0 <= d < logs.len() && is_logged(session, #[trigger] logs[d]);
            if d < n {
                assert(is_logged(session, rest[d]));
                let k = choose|k: int| 0 <= k < before.len() && before[k] == session;
                assert(all[k] == session);
            } else {
                let e = choose|e: int|
                    0 <= e < last.events@.len() && is_told_by(
                        session,
                        #[trigger] last.events@[e],
                    );
                lemma_start_kept(last.events@, e, session);
                let k = choose|k: int| 0 <= k < own.len() && own[k] == session;
                assert(all[before.len() + k] == session);
            }
        }
    }
}

/// The index has every session that a log tells of and no other, by the time of their start.
pub proof fn the_index_has_every_session(
    logs: Seq<SessionLog>,
    index: Seq<FxSession>,
    session: FxSession,
)
    requires
        is_session_index(logs, index),
    ensures
        index.contains(session) <==> exists|d: int|
            0 <= d < logs.len() && is_logged(session, #[trigger] logs[d]),
        forall|i: int, j: int|
            0 <= i <= j < index.len() ==> (#[trigger] index[i]).started_at_ms <= (
            #[trigger] index[j]).started_at_ms,
{
    let sorted = choose|sorted: Seq<SessionLog>| #[trigger]
        is_stable_sort(logs, sorted) && is_stable_sort(logged_sessions(sorted), index);
    let all = logged_sessions(sorted);
    lemma_logged(sorted, session);
    index.to_multiset_ensures();
    all.to_multiset_ensures();
    logs.to_multiset_ensures();
    sorted.to_multiset_ensures();
    assert(index.contains(session) <==> index.to_multiset().contains(session));
    assert(all.contains(session) <==> all.to_multiset().contains(session));
    assert forall|d: int| 0 <= d < logs.len() && is_logged(session, #[trigger] logs[d]) implies exists|
        s: int,
    | 0 <= s < sorted.len() && is_logged(session, #[trigger] sorted[s]) by {
        assert(logs.to_multiset().contains(logs[d]));
        assert(sorted.contains(logs[d]));
        let s = choose|s: int| 0 <= s < sorted.len() && sorted[s] == logs[d];
        assert(is_logged(session, sorted[s]));
    }
    assert forall|s: int| 0 <= s < sorted.len() && is_logged(session, #[trigger] sorted[s]) implies exists|
        d: int,
    | 0 <= d < logs.len() && is_logged(session, #[trigger] logs[d]) by {
        assert(sorted.to_multiset().contains(sorted[s]));
        assert(logs.contains(sorted[s]));
        let d = choose|d: int| 0 <= d < logs.len() && logs[d] == sorted[s];
        assert(is_logged(session, logs[d]));
    }
    assert forall|i: int, j: int| 0 <= i <= j < index.len() implies (
    #[trigger] index[i]).started_at_ms <= (#[trigger] index[j]).started_at_ms by {
        assert(index[i].precedes(&index[j]));
    }
}

/// Of entries with one identity the first that was read counts: an entry is loaded where no
/// earlier one shares its identity.
pub proof fn the_first_read_counts(read: Seq<LoadedEntry>, loaded: Seq<LoadedEntry>, i: int)
    requires
        is_stable_sort(first_of_each(read), loaded),
        0 <= i < read.len(),
        forall|j: int|
            0 <= j < i ==> identity((#[trigger] read[j]).model()) != identity(read[i].model()),
    ensures
        loaded.contains(read[i]),
{
    lemma_first_kept(read, i);
    first_of_each(read).to_multiset_ensures();
    loaded.to_multiset_ensures();
    assert(first_of_each(read).to_multiset().contains(read[i]));
    assert(loaded.to_multiset().contains(read[i]));
}

proof fn lemma_kept_were_read(read: Seq<LoadedEntry>, k: int)
    requires
        0 <= k < first_of_each(read).len(),
    ensures
        read.contains(first_of_each(read)[k]),
    decreases read.len(),
{
    let rest = read.drop_last();
    let before = first_of_each(rest);
    if k < before.len() {
        lemma_kept_were_read(rest, k);
        let j = choose|j: int| 0 <= j < rest.len() && rest[j] == before[k];
        assert(read[j] == first_of_each(read)[k]);
    } else {
        assert(read[read.len() - 1] == first_of_each(read)[k]);
    }
}

proof fn lemma_first_kept(read: Seq<LoadedEntry>, i: int)
    requires
        0 <= i < read.len(),
        forall|j: int|
            0 <= j < i ==> identity((#[trigger] read[j]).model()) != identity(read[i].model()),
    ensures
        first_of_each(read).contains(read[i]),
    decreases read.len(),
{
    let rest = read.drop_last();
    let before = first_of_each(rest);
    let all = first_of_each(read);
    if i < rest.len() {
        assert forall|j: int| 0 <= j < i implies identity((#[trigger] rest[j]).model()) != identity(
            rest[i].model(),
        ) by {
            assert(read[j] == rest[j]);
        }
        lemma_first_kept(rest, i);
        let k = choose|k: int| 0 <= k < before.len() && before[k] == rest[i];
        assert(all[k] == read[i]);
    } else {
        if is_known(before, read[i]) {
            let k = choose|k: int|
                0 <= k < before.len() && identity((#[trigger] before[k]).model()) == identity(
                    read[i].model(),
                );
            lemma_kept_were_read(rest, k);
            let j = choose|j: int| 0 <= j < rest.len() && rest[j] == before[k];
            assert(read[j] == before[k]);
        }
        assert(all[all.len() - 1] == read[i]);
    }
}

proof fn lemma_decimal_digits(n: nat)
    ensures
        decimal(n).len() > 0,
        forall|i: int| 0 <= i < decimal(n).len() ==> '0' <= #[trigger] decimal(n)[i] <= '9',
        !decimal(n).contains(':'),
    decreases n,
{
    if n >= 10 {
        lemma_decimal_digits(n / 10);
    }
}

proof fn lemma_decimal_injective(a: nat, b: nat)
    requires
        decimal(a) == decimal(b),
    ensures
        a == b,
    decreases a,
{
    lemma_decimal_digits(a / 10);
    lemma_decimal_digits(b / 10);
    assert(decimal(a).last() == digit(a % 10));
    assert(decimal(b).last() == digit(b % 10));
    assert(a % 10 == b % 10);
    if a >= 10 && b >= 10 {
        assert(decimal(a).drop_last() =~= decimal(a / 10));
        assert(decimal(b).drop_last() =~= decimal(b / 10));
        lemma_decimal_injective(a / 10, b / 10);
    } else {
        assert(decimal(a).len() == 1 <==> a < 10);
        assert(decimal(b).len() == 1 <==> b < 10);
    }
}

proof fn lemma_joined_push(list: Seq<Seq<char>>, last: Seq<char>)
    requires
        list.len() > 0,
    ensures
        joined(list.push(last), ":"@) == joined(list, ":"@).push(':') + last,
{
    reveal_strlit(":");
    assert(list.push(last).drop_last() =~= list);
    assert(joined(list.push(last), ":"@) =~= joined(list, ":"@).push(':') + last);
}

proof fn lemma_counts_stand_last(entry: EntryModel)
    ensures
        ({
            let usage = entry.usage;
            let parts = pieces(full_identity(entry), ':');
            let n = parts.len() as int;
            &&& n >= 4
            &&& parts[n - 4] == decimal(usage.input_tokens as nat)
            &&& parts[n - 3] == decimal(usage.output_tokens as nat)
            &&& parts[n - 2] == decimal(usage.cache_creation_input_tokens as nat)
            &&& parts[n - 1] == decimal(usage.cache_read_input_tokens as nat)
        }),
{
    let head = seq!["fx"@, ""@, entry.project, entry.session_id, entry.timestamp_text];
    let a = decimal(entry.usage.input_tokens as nat);
    let b = decimal(entry.usage.output_tokens as nat);
    let c = decimal(entry.usage.cache_creation_input_tokens as nat);
    let d = decimal(entry.usage.cache_read_input_tokens as nat);
    lemma_decimal_digits(entry.usage.input_tokens as nat);
    lemma_decimal_digits(entry.usage.output_tokens as nat);
    lemma_decimal_digits(entry.usage.cache_creation_input_tokens as nat);
    lemma_decimal_digits(entry.usage.cache_read_input_tokens as nat);
    lemma_joined_push(head, a);
    lemma_joined_push(head.push(a), b);
    lemma_joined_push(head.push(a).push(b), c);
    lemma_joined_push(head.push(a).push(b).push(c), d);
    lemma_pieces_push(joined(head, ":"@), a, ':');
    lemma_pieces_push(joined(head.push(a), ":"@), b, ':');
    lemma_pieces_push(joined(head.push(a).push(b), ":"@), c, ':');
    lemma_pieces_push(joined(head.push(a).push(b).push(c), ":"@), d, ':');
    assert(full_identity(entry) == joined(head.push(a).push(b).push(c).push(d), ":"@)) by {
        assert(head.push(a).push(b).push(c).push(d) =~= seq![
            "fx"@,
            ""@,
            entry.project,
            entry.session_id,
            entry.timestamp_text,
            a,
            b,
            c,
            d,
        ]);
    }
}

/// Generations without ids are told apart by their counts: where one of the four differs, they are
/// not taken for the same.
pub proof fn counts_tell_generations_apart(a: EntryModel, b: EntryModel)
    requires
        a.id is None,
        b.id is None,
        identity(a) == identity(b),
    ensures
        a.usage.input_tokens == b.usage.input_tokens,
        a.usage.output_tokens == b.usage.output_tokens,
        a.usage.cache_creation_input_tokens == b.usage.cache_creation_input_tokens,
        a.usage.cache_read_input_tokens == b.usage.cache_read_input_tokens,
{
    lemma_counts_stand_last(a);
    lemma_counts_stand_last(b);
    lemma_decimal_injective(a.usage.input_tokens as nat, b.usage.input_tokens as nat);
    lemma_decimal_injective(a.usage.output_tokens as nat, b.usage.output_tokens as nat);
    lemma_decimal_injective(
        a.usage.cache_creation_input_tokens as nat,
        b.usage.cache_creation_input_tokens as nat,
    );
    lemma_decimal_injective(
        a.usage.cache_read_input_tokens as nat,
        b.usage.cache_read_input_tokens as nat,
    );
}

/// A line of a ledger is read exactly when it has the words of a generation and of a fact in it,
/// and a line of a session log exactly when it has that of a start.
pub proof fn lines_are_read_by_their_words(content: Seq<u8>, line: Seq<u8>)
    ensures
        wanted_lines(content, generation_marks()).contains(line) <==> split_lines(content).contains(
            line,
        ) && holds(line, encode_utf8("\"generation\""@)) && holds(
            line,
            encode_utf8("\"fact\""@),
        ),
        wanted_lines(content, session_marks()).contains(line) <==> split_lines(content).contains(
            line,
        ) && holds(line, encode_utf8("\"session_started\""@)),
{
    lemma_wanted(content, generation_marks(), line);
    lemma_wanted(content, session_marks(), line);
    let first = generation_marks();
    let second = session_marks();
    assert(first[0]@ == "\"generation\""@ && first[1]@ == "\"fact\""@);
    assert(second[0]@ == "\"session_started\""@);
    assert(holds_all(line, first) <==> holds(line, encode_utf8(first[0]@)) && holds(
        line,
        encode_utf8(first[1]@),
    ));
    assert(holds_all(line, second) <==> holds(line, encode_utf8(second[0]@)));
}

proof fn lemma_wanted(content: Seq<u8>, parts: Seq<&'static str>, line: Seq<u8>)
    ensures
        wanted_lines(content, parts).contains(line) <==> split_lines(content).contains(line)
            && holds_all(line, parts),
{
    let lines = split_lines(content);
    let pred = |line: Seq<u8>| holds_all(line, parts);
    let kept = wanted_lines(content, parts);
    if kept.contains(line) {
        lines.lemma_filter_contains_rev(pred, line);
        let k = choose|k: int| 0 <= k < kept.len() && kept[k] == line;
        lines.lemma_filter_pred(pred, k);
    }
    if lines.contains(line) && holds_all(line, parts) {
        let i = choose|i: int| 0 <= i < lines.len() && lines[i] == line;
        lines.lemma_filter_contains(pred, i);
    }
}

/// A data directory gives its own name to generations without a workspace, whatever stands before
/// the name in its path, and with or without a separator at the end.
pub proof fn directories_name_their_projects(parent: Seq<char>, name: Seq<char>)
    requires
        name.len() > 0,
        !name.contains('/'),
        name != "."@,
        name != ".."@,
    ensures
        directory_project(parent.push('/') + name) == name,
        directory_project((parent.push('/') + name).push('/')) == name,
{
    let path = parent.push('/') + name;
    let none = Seq::<char>::empty();
    lemma_pieces_push(parent, name, '/');
    lemma_pieces_push(path, none, '/');
    assert(path.push('/') + none =~= path.push('/'));
    let front = pieces(parent, '/');
    assert(front.len() > 0);
    let list = front.push(name);
    assert(list.drop_last() =~= front);
    assert(path_components(path) == components(front).push(name));
    assert(list.push(none).drop_last() =~= list);
    assert(path_components(path.push('/')) == components(front).push(name));
}

} // verus!
