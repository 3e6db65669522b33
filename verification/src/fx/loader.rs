//! The entries of all data directories of fx.

use vstd::prelude::*;
use vstd::string::*;
use crate::fx::parser::{entry_id, identity, is_session_index, ledger_entries, read_data_dir};
use crate::fx::paths::{paths, FX_DIRECTORY};
use crate::fx::records::{all_well_formed, entry_models, CostMode, FxSession, Ledger, LoadedEntry};
use crate::index::KeyIndex;
use crate::order::key_view;
use crate::paths::{data_directories, is_listed, join_path, path_under, text_if_any, NoHome};
use crate::sort::{in_rank_order, is_stable_sort, reversed, stable_sort, Ranked};
use crate::text::texts;

verus! {

/// The entry has the identity of one of the entries.
pub open spec fn is_known(entries: Seq<LoadedEntry>, entry: LoadedEntry) -> bool {
    exists|i: int|
        0 <= i < entries.len() && identity((#[trigger] entries[i]).model()) == identity(
            entry.model(),
        )
}

/// The first entry of each identity.
pub open spec fn first_of_each(entries: Seq<LoadedEntry>) -> Seq<LoadedEntry>
    decreases entries.len(),
{
    if entries.len() == 0 {
        Seq::empty()
    } else {
        let before = first_of_each(entries.drop_last());
        if is_known(before, entries.last()) {
            before
        } else {
            before.push(entries.last())
        }
    }
}

/// The entries of a data directory; none where it could not be read.
pub open spec fn is_directory_result(
    ledger: Option<Ledger>,
    mode: CostMode,
    entries: Seq<LoadedEntry>,
) -> bool {
    match ledger {
        Some(ledger) => exists|index: Seq<FxSession>| #[trigger]
            is_session_index(ledger.sessions@, index) && entry_models(entries) == ledger_entries(
                ledger.generations@,
                index,
                ledger.directory@,
                mode,
            ),
        None => entries.len() == 0,
    }
}

/// The entries of data directories, one directory after the other.
pub open spec fn is_result(
    ledgers: Seq<Option<Ledger>>,
    mode: CostMode,
    results: Seq<Seq<LoadedEntry>>,
) -> bool {
    results.len() == ledgers.len() && forall|i: int|
        0 <= i < ledgers.len() ==> is_directory_result(ledgers[i], mode, #[trigger] results[i])
}

/// What is loaded from data directories: the first entry of each identity, by time.
pub open spec fn is_loaded(
    ledgers: Seq<Option<Ledger>>,
    mode: CostMode,
    entries: Seq<LoadedEntry>,
) -> bool {
    exists|results: Seq<Seq<LoadedEntry>>| #[trigger]
        is_result(ledgers, mode, results) && is_stable_sort(
            first_of_each(results.flatten()),
            entries,
        )
}

/// The identities that were seen.
struct Seen {
    index: KeyIndex,
}

/// A text as a key.
pub open spec fn as_key(text: Seq<char>) -> Seq<Seq<char>> {
    seq![text]
}

impl Seen {
    spec fn has(&self, text: Seq<char>) -> bool {
        self.index@.contains_key(as_key(text))
    }

    fn new() -> (out: Seen)
        ensures
            out.index.well_formed(),
            forall|text: Seq<char>| !out.has(text),
    {
        Seen { index: KeyIndex::new() }
    }

    fn insert(&mut self, text: String) -> (fresh: bool)
        requires
            old(self).index.well_formed(),
        ensures
            final(self).index.well_formed(),
            fresh == !old(self).has(text@),
            forall|other: Seq<char>|
                #![trigger final(self).has(other)]
                final(self).has(other) <==> old(self).has(other) || other == text@,
    {
        let ghost name = text@;
        let mut key: Vec<String> = Vec::new();
        key.push(text);
        assert(key_view(key@) =~= as_key(name));
        match self.index.find(&key) {
            Some(_) => false,
            None => {
                self.index.insert(key, 0);
                proof {
                    assert forall|other: Seq<char>| as_key(other) == as_key(name) implies other
                        == name by {
                        assert(as_key(other)[0] == as_key(name)[0]);
                    }
                }
                true
            },
        }
    }
}

proof fn lemma_first_of_each(entries: Seq<LoadedEntry>)
    ensures
        ({
            let kept = first_of_each(entries);
            &&& forall|i: int| 0 <= i < kept.len() ==> entries.contains(#[trigger] kept[i])
            &&& forall|i: int, j: int|
                0 <= i < j < kept.len() ==> identity((#[trigger] kept[i]).model()) != identity(
                    (#[trigger] kept[j]).model(),
                )
            &&& forall|i: int| 0 <= i < entries.len() ==> is_known(kept, #[trigger] entries[i])
        }),
    decreases entries.len(),
{
    if entries.len() > 0 {
        let before = entries.drop_last();
        let last = entries.last();
        lemma_first_of_each(before);
        let earlier = first_of_each(before);
        let kept = first_of_each(entries);
        assert forall|i: int| 0 <= i < kept.len() implies entries.contains(#[trigger] kept[i]) by {
            if i < earlier.len() {
                assert(earlier[i] == kept[i]);
                let k = choose|k: int| 0 <= k < before.len() && before[k] == earlier[i];
                assert(entries[k] == kept[i]);
            } else {
                assert(entries[entries.len() - 1] == kept[i]);
            }
        }
        assert forall|i: int, j: int| 0 <= i < j < kept.len() implies identity(
            (#[trigger] kept[i]).model(),
        ) != identity((#[trigger] kept[j]).model()) by {
            assert(earlier[i] == kept[i]);
            if j < earlier.len() {
                assert(earlier[j] == kept[j]);
            }
        }
        assert forall|i: int| 0 <= i < entries.len() implies is_known(
            kept,
            #[trigger] entries[i],
        ) by {
            let entry = entries[i];
            if i < before.len() {
                assert(before[i] == entry);
                assert(is_known(earlier, entry));
            }
            if is_known(earlier, entry) {
                let k = choose|k: int|
                    0 <= k < earlier.len() && identity((#[trigger] earlier[k]).model())
                        == identity(entry.model());
                assert(kept[k] == earlier[k]);
            } else {
                assert(kept[earlier.len() as int] == entry);
            }
        }
    }
}

proof fn lemma_first_of_each_push(entries: Seq<LoadedEntry>, entry: LoadedEntry)
    ensures
        first_of_each(entries.push(entry)) == (if is_known(first_of_each(entries), entry) {
            first_of_each(entries)
        } else {
            first_of_each(entries).push(entry)
        }),
{
    assert(entries.push(entry).drop_last() =~= entries);
}

/// Adds the entries whose identity is new.
fn add_new(entries: &mut Vec<LoadedEntry>, seen: &mut Seen, result: Vec<LoadedEntry>, Ghost(
    done,
): Ghost<Seq<LoadedEntry>>)
    requires
        old(seen).index.well_formed(),
        old(entries)@ == first_of_each(done),
        forall|entry: LoadedEntry|
            #![trigger entry.model()]
            old(seen).has(identity(entry.model())) <==> is_known(old(entries)@, entry),
        all_well_formed(old(entries)@),
        all_well_formed(result@),
    ensures
        final(seen).index.well_formed(),
        final(entries)@ == first_of_each(done + result@),
        forall|entry: LoadedEntry|
            #![trigger entry.model()]
            final(seen).has(identity(entry.model())) <==> is_known(final(entries)@, entry),
        all_well_formed(final(entries)@),
{
    let ghost all = result@;
    let mut rest = reversed(result);
    let ghost mut n: int = 0;
    assert(done + all.take(0) =~= done);
    while rest.len() > 0
        invariant
            0 <= n <= all.len(),
            rest@ =~= all.skip(n).reverse(),
            seen.index.well_formed(),
            entries@ == first_of_each(done + all.take(n)),
            forall|entry: LoadedEntry|
                #![trigger entry.model()]
                seen.has(identity(entry.model())) <==> is_known(entries@, entry),
            all_well_formed(entries@),
            all_well_formed(all),
        decreases rest@.len(),
    {
        if let Some(entry) = rest.pop() {
            let ghost before = entries@;
            let ghost known = *seen;
            proof {
                assert(entry == all[n]);
                assert(done + all.take(n + 1) =~= (done + all.take(n)).push(entry));
                lemma_first_of_each_push(done + all.take(n), entry);
                n = n + 1;
            }
            let id = entry_id(&entry);
            let ghost name = id@;
            if seen.insert(id) {
                entries.push(entry);
                proof {
                    assert forall|other: LoadedEntry|
                        #![trigger other.model()]
                        seen.has(identity(other.model())) <==> is_known(entries@, other) by {
                        if is_known(before, other) {
                            let k = choose|k: int|
                                0 <= k < before.len() && identity((#[trigger] before[k]).model())
                                    == identity(other.model());
                            assert(entries@[k] == before[k]);
                        }
                        if identity(other.model()) == name {
                            assert(entries@[before.len() as int] == entry);
                        }
                        if is_known(entries@, other) {
                            let k = choose|k: int|
                                0 <= k < entries@.len() && identity(
                                    (#[trigger] entries@[k]).model(),
                                ) == identity(other.model());
                            if k < before.len() {
                                assert(entries@[k] == before[k]);
                                assert(is_known(before, other));
                                assert(known.has(identity(other.model())));
                            }
                        }
                    }
                }
            }
        }
    }
    assert(all.take(n) =~= all);
}

/// The entries of data directories by time, each generation once: of several with one identity
/// the first stays. A directory that could not be read has none.
pub fn load_entries_from_paths(ledgers: Vec<Option<Ledger>>, mode: CostMode) -> (out: Vec<
    LoadedEntry,
>)
    ensures
        all_well_formed(out@),
        is_loaded(ledgers@, mode, out@),
{
    let ghost all = ledgers@;
    let mut rest = reversed(ledgers);
    let mut entries: Vec<LoadedEntry> = Vec::new();
    let mut seen = Seen::new();
    let ghost mut n: int = 0;
    let ghost mut results = Seq::<Seq<LoadedEntry>>::empty();
    assert(results.flatten() =~= Seq::empty());
    assert(entries@ =~= first_of_each(results.flatten()));
    while rest.len() > 0
        invariant
            0 <= n <= all.len(),
            rest@ =~= all.skip(n).reverse(),
            results.len() == n,
            forall|i: int|
                0 <= i < n ==> is_directory_result(all[i], mode, #[trigger] results[i]),
            seen.index.well_formed(),
            entries@ == first_of_each(results.flatten()),
            forall|entry: LoadedEntry|
                #![trigger entry.model()]
                seen.has(identity(entry.model())) <==> is_known(entries@, entry),
            all_well_formed(entries@),
        decreases rest@.len(),
    {
        if let Some(ledger) = rest.pop() {
            assert(ledger == all[n]);
            let result = match ledger {
                Some(ledger) => read_data_dir(ledger, mode),
                None => Vec::new(),
            };
            assert(is_directory_result(all[n], mode, result@));
            let ghost done = results.flatten();
            proof {
                let grown = results.push(result@);
                results.lemma_flatten_push(result@);
                assert(grown.flatten() == done + result@);
                results = grown;
                n = n + 1;
            }
            add_new(&mut entries, &mut seen, result, Ghost(done));
        }
    }
    assert(is_result(all, mode, results));
    let ghost unsorted = entries@;
    let out = stable_sort(entries);
    proof {
        lemma_sorted_well_formed(unsorted, out@);
    }
    out
}

proof fn lemma_sorted_well_formed(input: Seq<LoadedEntry>, output: Seq<LoadedEntry>)
    requires
        is_stable_sort(input, output),
        all_well_formed(input),
    ensures
        all_well_formed(output),
{
    assert forall|i: int| 0 <= i < output.len() implies (#[trigger] output[i]).well_formed() by {
        output.to_multiset_ensures();
        input.to_multiset_ensures();
        assert(output.contains(output[i]));
        assert(output.to_multiset().contains(output[i]));
        assert(input.contains(output[i]));
    }
}

/// The entries of fx; fails exactly where there is no place to look for data directories.
/// `ledgers` is what was read from the data directories, in their order.
pub fn load_entries(ledgers: Result<Vec<Option<Ledger>>, NoHome>, mode: CostMode) -> (out: Result<
    Vec<LoadedEntry>,
    NoHome,
>)
    ensures
        match (ledgers, out) {
            (Ok(ledgers), Ok(entries)) => all_well_formed(entries@) && is_loaded(
                ledgers@,
                mode,
                entries@,
            ),
            (Err(error), Err(same)) => error == same,
            _ => false,
        },
{
    match ledgers {
        Ok(ledgers) => Ok(load_entries_from_paths(ledgers, mode)),
        Err(error) => Err(error),
    }
}

/// The file of a data directory that holds the usage ledger.
pub const USAGE_FILE: &'static str = "usage.jsonl";

/// One of the directories holds a usage ledger.
pub open spec fn some_ledger(directories: Seq<Seq<char>>, files: Seq<Seq<char>>) -> bool {
    exists|i: int|
        0 <= i < directories.len() && files.contains(
            #[trigger] path_under(directories[i], USAGE_FILE@),
        )
}

fn finds_ledger(found: &Vec<String>, files: &Vec<String>) -> (r: bool)
    ensures
        r == some_ledger(texts(found@), texts(files@)),
{
    let mut i: usize = 0;
    while i < found.len()
        invariant
            i <= found@.len(),
            forall|j: int|
                0 <= j < i ==> !texts(files@).contains(
                    #[trigger] path_under(texts(found@)[j], USAGE_FILE@),
                ),
        decreases found@.len() - i,
    {
        let file = join_path(found[i].as_str(), USAGE_FILE);
        assert(file@ == path_under(texts(found@)[i as int], USAGE_FILE@));
        if is_listed(files, file.as_str()) {
            return true;
        }
        i = i + 1;
    }
    false
}

/// Whether fx has data: whether one of its data directories holds a usage ledger. `directories`
/// are the candidates that are directories, and `files` are the paths that are files.
pub fn has_data(
    environment: Option<&str>,
    home: Option<&str>,
    directories: &Vec<String>,
    files: &Vec<String>,
) -> (r: bool)
    ensures
        r == (match data_directories(
            None,
            text_if_any(environment),
            text_if_any(home),
            FX_DIRECTORY@,
            texts(directories@),
        ) {
            Some(found) => some_ledger(found, texts(files@)),
            None => false,
        }),
{
    match paths(None, environment, home, directories) {
        Ok(found) => finds_ledger(&found, files),
        Err(_) => false,
    }
}

/// No generation counts twice and none is lost: no two loaded entries have one identity, the
/// loaded entries are among those that were read, every entry that was read has a loaded one of
/// its identity, and the loaded entries stand in the order of their times.
pub proof fn every_generation_counts_once(read: Seq<LoadedEntry>, loaded: Seq<LoadedEntry>)
    requires
        is_stable_sort(first_of_each(read), loaded),
    ensures
        forall|i: int, j: int|
            0 <= i < j < loaded.len() ==> identity((#[trigger] loaded[i]).model()) != identity(
                (#[trigger] loaded[j]).model(),
            ),
        forall|i: int| 0 <= i < loaded.len() ==> read.contains(#[trigger] loaded[i]),
        forall|i: int| 0 <= i < read.len() ==> is_known(loaded, #[trigger] read[i]),
        forall|i: int, j: int|
            0 <= i <= j < loaded.len() ==> (#[trigger] loaded[i]).timestamp <= (
            #[trigger] loaded[j]).timestamp,
{
    let kept = first_of_each(read);
    lemma_first_of_each(read);
    kept.to_multiset_ensures();
    loaded.to_multiset_ensures();
    assert forall|i: int| 0 <= i < loaded.len() implies read.contains(#[trigger] loaded[i]) by {
        assert(loaded.to_multiset().contains(loaded[i]));
        assert(kept.contains(loaded[i]));
    }
    assert forall|i: int| 0 <= i < read.len() implies is_known(loaded, #[trigger] read[i]) by {
        assert(is_known(kept, read[i]));
        let k = choose|k: int|
            0 <= k < kept.len() && identity((#[trigger] kept[k]).model()) == identity(
                read[i].model(),
            );
        assert(kept.to_multiset().contains(kept[k]));
        assert(loaded.contains(kept[k]));
        let m = choose|m: int| 0 <= m < loaded.len() && loaded[m] == kept[k];
        assert(identity(loaded[m].model()) == identity(read[i].model()));
    }
    assert forall|i: int, j: int| 0 <= i < j < loaded.len() implies identity(
        (#[trigger] loaded[i]).model(),
    ) != identity((#[trigger] loaded[j]).model()) by {
        if identity(loaded[i].model()) == identity(loaded[j].model()) {
            lemma_distinct(kept);
            lemma_distinct_sorted(kept, loaded);
            assert(kept.contains(loaded[i])) by {
                assert(loaded.to_multiset().contains(loaded[i]));
            }
            assert(kept.contains(loaded[j])) by {
                assert(loaded.to_multiset().contains(loaded[j]));
            }
            let a = choose|a: int| 0 <= a < kept.len() && kept[a] == loaded[i];
            let b = choose|b: int| 0 <= b < kept.len() && kept[b] == loaded[j];
            if a < b {
                assert(identity(kept[a].model()) != identity(kept[b].model()));
            } else if b < a {
                assert(identity(kept[b].model()) != identity(kept[a].model()));
            }
            assert(loaded[i] == loaded[j]);
        }
    }
    assert forall|i: int, j: int| 0 <= i <= j < loaded.len() implies (
    #[trigger] loaded[i]).timestamp <= (#[trigger] loaded[j]).timestamp by {
        assert(in_rank_order(loaded));
        assert(loaded[i].precedes(&loaded[j]));
    }
}

proof fn lemma_distinct(kept: Seq<LoadedEntry>)
    requires
        forall|i: int, j: int|
            0 <= i < j < kept.len() ==> identity((#[trigger] kept[i]).model()) != identity(
                (#[trigger] kept[j]).model(),
            ),
    ensures
        kept.no_duplicates(),
{
}

proof fn lemma_distinct_sorted(kept: Seq<LoadedEntry>, loaded: Seq<LoadedEntry>)
    requires
        kept.no_duplicates(),
        kept.to_multiset() == loaded.to_multiset(),
    ensures
        loaded.no_duplicates(),
{
    kept.lemma_multiset_has_no_duplicates();
    loaded.lemma_multiset_has_no_duplicates_conv();
}

/// Reading a data directory again changes nothing: entries that were read already add none.
pub proof fn reading_again_adds_nothing(read: Seq<LoadedEntry>, again: Seq<LoadedEntry>)
    requires
        forall|i: int| 0 <= i < again.len() ==> is_known(read, #[trigger] again[i]),
    ensures
        first_of_each(read + again) == first_of_each(read),
    decreases again.len(),
{
    if again.len() == 0 {
        assert(read + again =~= read);
    } else {
        let before = again.drop_last();
        let last = again.last();
        assert forall|i: int| 0 <= i < before.len() implies is_known(read, #[trigger] before[i]) by {
            assert(before[i] == again[i]);
        }
        reading_again_adds_nothing(read, before);
        assert((read + again).drop_last() =~= read + before);
        lemma_first_of_each(read);
        assert(is_known(read, again[again.len() - 1]));
        let k = choose|k: int|
            0 <= k < read.len() && identity((#[trigger] read[k]).model()) == identity(last.model());
        assert(is_known(first_of_each(read), read[k]));
        let m = choose|m: int|
            0 <= m < first_of_each(read).len() && identity(
                (#[trigger] first_of_each(read)[m]).model(),
            ) == identity(read[k].model());
        assert(is_known(first_of_each(read), last));
    }
}

} // verus!
