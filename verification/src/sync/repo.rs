//! Names: of the repository, of its working copy, of machines and of their files.

use vstd::prelude::*;
use vstd::string::*;
use crate::paths::{join_path, path_under};
use crate::text::{
    chars_of, concat2, concat3, contains_text, cut, decimal, ends_with, is_blank, is_white, join,
    joined, number, occurs_in, split_once, stands_at, starts_with, texts, trim, trimmed, white,
    without_leading_white, without_trailing_white,
};

verus! {

/// Why a sync cannot go on.
#[derive(Debug)]
pub enum SyncError {
    /// No repository was configured.
    NoRepository,
    /// The home directory is not known.
    NoHome,
    /// The git program could not be started.
    GitMissing { error: String },
    /// The git program, of which only the exit status was wanted, could not be started.
    GitNotStarted { error: String },
    /// The git program reported a failure; the text is what it wrote.
    GitFailed { output: String },
}

/// The message for a sync without repository.
pub const NO_REPOSITORY: &'static str =
    "No sync repository configured. Pass --repo owner/name (or any git URL), or set CCUSAGE_SYNC_REPO.\nSetup:\n  gh repo create ccusage-sync --private\n  ccusage sync --repo <you>/ccusage-sync";

/// The message for an unknown home directory.
pub const NO_HOME: &'static str = "home directory is not set";

impl SyncError {
    /// The message of an error.
    pub open spec fn text(self) -> Seq<char> {
        match self {
            SyncError::NoRepository => NO_REPOSITORY@,
            SyncError::NoHome => NO_HOME@,
            SyncError::GitMissing { error } => "failed to run git ("@ + error@
                + "). Install git to use ccusage sync."@,
            SyncError::GitNotStarted { error } => "failed to run git ("@ + error@ + ")"@,
            SyncError::GitFailed { output } => "git failed: "@ + output@,
        }
    }

    /// The message of an error.
    pub fn message(&self) -> (out: String)
        ensures
            out@ == self.text(),
    {
        match self {
            SyncError::NoRepository => NO_REPOSITORY.to_owned(),
            SyncError::NoHome => NO_HOME.to_owned(),
            SyncError::GitMissing { error } => concat3(
                "failed to run git (",
                error.as_str(),
                "). Install git to use ccusage sync.",
            ),
            SyncError::GitNotStarted { error } => concat3(
                "failed to run git (",
                error.as_str(),
                ")",
            ),
            SyncError::GitFailed { output } => concat2("git failed: ", output.as_str()),
        }
    }
}

/// The repository of a sync: the one that was asked for, or else that of the environment. A
/// blank name is none, and does not make room for the environment.
pub open spec fn chosen_repo(
    argument: Option<String>,
    environment: Option<String>,
) -> Option<String> {
    let spec = if argument is Some {
        argument
    } else {
        environment
    };
    match spec {
        Some(repo) if trimmed(repo@).len() > 0 => Some(repo),
        _ => None,
    }
}

/// The repository of a sync.
pub fn choose_repo(argument: Option<String>, environment: Option<String>) -> (out: Result<
    String,
    SyncError,
>)
    ensures
        match out {
            Ok(repo) => chosen_repo(argument, environment) == Some(repo),
            Err(error) => chosen_repo(argument, environment) is None && error
                == SyncError::NoRepository,
        },
{
    let spec = match argument {
        Some(repo) => Some(repo),
        None => environment,
    };
    match spec {
        Some(repo) => {
            if is_blank(repo.as_str()) {
                Err(SyncError::NoRepository)
            } else {
                Ok(repo)
            }
        },
        None => Err(SyncError::NoRepository),
    }
}

/// The name is a URL or a path already.
pub open spec fn is_location(spec: Seq<char>) -> bool {
    ||| occurs_in("://"@, spec)
    ||| "git@"@.is_prefix_of(spec)
    ||| "/"@.is_prefix_of(spec)
    ||| "."@.is_prefix_of(spec)
}

/// The address of `owner/name`.
pub open spec fn github_address(owner: Seq<char>, name: Seq<char>) -> Seq<char> {
    "https://github.com/"@ + owner + "/"@ + name + ".git"@
}

/// What git is to clone: the shorthand `owner/name` stands for a GitHub address; URLs and paths
/// stand for themselves.
pub open spec fn address(spec: Seq<char>) -> Seq<char> {
    let name = trimmed(spec);
    if is_location(name) {
        name
    } else {
        match cut(name, '/') {
            Some((owner, repo)) => if owner.len() > 0 && repo.len() > 0 {
                github_address(owner, repo)
            } else {
                name
            },
            None => name,
        }
    }
}

/// What git is to clone.
pub fn repo_url(spec: &str) -> (out: String)
    ensures
        out@ == address(spec@),
{
    let name = trim(spec);
    let text = name.as_str();
    if contains_text(text, "://") || starts_with(text, "git@") || starts_with(text, "/")
        || starts_with(text, ".") {
        return name;
    }
    match split_once(text, '/') {
        Some(halves) => {
            if halves.0.as_str().is_empty() || halves.1.as_str().is_empty() {
                name
            } else {
                let mut out = concat3("https://github.com/", halves.0.as_str(), "/");
                out.append(halves.1.as_str());
                out.append(".git");
                out
            }
        },
        None => name,
    }
}

proof fn lemma_leading_white(s: Seq<char>)
    ensures
        without_leading_white(s).len() > 0 ==> !is_white(without_leading_white(s)[0]),
        without_leading_white(without_leading_white(s)) == without_leading_white(s),
    decreases s.len(),
{
    if s.len() > 0 && is_white(s[0]) {
        lemma_leading_white(s.drop_first());
    }
}

proof fn lemma_trailing_white(s: Seq<char>)
    ensures
        without_trailing_white(s).len() <= s.len(),
        without_trailing_white(s) == s.take(without_trailing_white(s).len() as int),
        without_trailing_white(s).len() > 0 ==> !is_white(without_trailing_white(s).last()),
        without_trailing_white(without_trailing_white(s)) == without_trailing_white(s),
    decreases s.len(),
{
    if s.len() > 0 && is_white(s.last()) {
        lemma_trailing_white(s.drop_last());
        let n = without_trailing_white(s).len() as int;
        assert(s.drop_last().take(n) =~= s.take(n));
    } else {
        assert(s.take(s.len() as int) =~= s);
    }
}

/// A trimmed text has no white space at its ends, and trimming it again changes nothing.
pub proof fn trimming_twice_is_trimming_once(s: Seq<char>)
    ensures
        trimmed(trimmed(s)) == trimmed(s),
        trimmed(s).len() > 0 ==> !is_white(trimmed(s)[0]) && !is_white(trimmed(s).last()),
{
    let front = without_leading_white(s);
    lemma_leading_white(s);
    lemma_trailing_white(front);
    let out = without_trailing_white(front);
    if out.len() > 0 {
        assert(out[0] == front[0]);
    }
    assert(without_leading_white(out) == out);
}

/// An address stands for itself: expanding it again changes nothing.
pub proof fn addresses_stand_for_themselves(spec: Seq<char>)
    ensures
        address(address(spec)) == address(spec),
{
    let name = trimmed(spec);
    trimming_twice_is_trimming_once(spec);
    if !is_location(name) {
        if let Some((owner, repo)) = cut(name, '/') {
            if owner.len() > 0 && repo.len() > 0 {
                let out = github_address(owner, repo);
                reveal_strlit("https://github.com/");
                reveal_strlit("://");
                reveal_strlit(".git");
                reveal_strlit("/");
                assert(stands_at(out, 5, "://"@)) by {
                    assert(out.subrange(5, 8) =~= "://"@);
                }
                assert(out[0] == 'h');
                assert(out.last() == 't');
                assert(without_leading_white(out) == out);
                assert(trimmed(out) == out);
            }
        }
    }
}

/// The characters that a file name is made of.
pub open spec fn is_safe(c: char) -> bool {
    ||| 'a' <= c <= 'z'
    ||| 'A' <= c <= 'Z'
    ||| '0' <= c <= '9'
    ||| c == '-'
    ||| c == '_'
    ||| c == '.'
}

/// The character itself where it is safe, and a dash otherwise.
pub open spec fn safe_char(c: char) -> char {
    if is_safe(c) {
        c
    } else {
        '-'
    }
}

/// The text without any number of `suffix` at its end.
pub open spec fn without_suffix(s: Seq<char>, suffix: Seq<char>) -> Seq<char>
    decreases s.len(),
{
    if suffix.len() > 0 && suffix.is_suffix_of(s) {
        without_suffix(s.take(s.len() - suffix.len()), suffix)
    } else {
        s
    }
}

/// The file name that stands for a repository or a machine.
pub open spec fn file_name(spec: Seq<char>) -> Seq<char> {
    without_suffix(trimmed(spec), ".git"@).map_values(|c: char| safe_char(c))
}

fn strip_suffix(s: &Vec<char>, suffix: &Vec<char>) -> (end: usize)
    ensures
        end <= s@.len(),
        s@.take(end as int) == without_suffix(s@, suffix@),
{
    let mut end: usize = s.len();
    assert(s@.take(end as int) =~= s@);
    if suffix.len() == 0 {
        return end;
    }
    loop
        invariant
            suffix@.len() > 0,
            end <= s@.len(),
            without_suffix(s@.take(end as int), suffix@) == without_suffix(s@, suffix@),
        decreases end,
    {
        let ghost rest = s@.take(end as int);
        if !ends_with(s, end, suffix) {
            return end;
        }
        let start: usize = end - suffix.len();
        assert(rest.take(start as int) =~= s@.take(start as int));
        end = start;
    }
}

/// The file name that stands for a repository or a machine: trimmed, without `.git` at its end,
/// and with a dash for every character that is not a letter, a digit, a dash, an underscore or a
/// dot.
pub fn sanitize(spec: &str) -> (out: String)
    ensures
        out@ == file_name(spec@),
{
    let name = trim(spec);
    let chars = chars_of(name.as_str());
    let suffix = chars_of(".git");
    let end: usize = strip_suffix(&chars, &suffix);
    let ghost kept = without_suffix(trimmed(spec@), ".git"@);
    let mut out = String::new();
    let mut i: usize = 0;
    while i < end
        invariant
            i <= end <= chars@.len(),
            kept == chars@.take(end as int),
            out@ =~= kept.take(i as int).map_values(|c: char| safe_char(c)),
        decreases end - i,
    {
        let c = chars[i];
        if ('a' <= c && c <= 'z') || ('A' <= c && c <= 'Z') || ('0' <= c && c <= '9') || c == '-'
            || c == '_' || c == '.' {
            out.push(c);
        } else {
            out.push('-');
        }
        i = i + 1;
    }
    assert(kept.take(end as int) =~= kept);
    out
}

/// The directory name of a repository's working copy.
pub fn sanitize_repo_name(spec: &str) -> (out: String)
    ensures
        out@ == file_name(spec@),
{
    sanitize(spec)
}

/// The file name of a machine, without extension.
pub fn sanitize_machine(machine: &str) -> (out: String)
    ensures
        out@ == file_name(machine@),
{
    sanitize(machine)
}

proof fn lemma_without_suffix(s: Seq<char>, suffix: Seq<char>)
    ensures
        without_suffix(s, suffix).len() <= s.len(),
        without_suffix(s, suffix) == s.take(without_suffix(s, suffix).len() as int),
        suffix.len() > 0 ==> !suffix.is_suffix_of(without_suffix(s, suffix)),
    decreases s.len(),
{
    if suffix.len() > 0 && suffix.is_suffix_of(s) {
        let rest = s.take(s.len() - suffix.len());
        lemma_without_suffix(rest, suffix);
        let n = without_suffix(s, suffix).len() as int;
        assert(rest.take(n) =~= s.take(n));
    } else {
        assert(s.take(s.len() as int) =~= s);
    }
}

/// A file name is made of safe characters only, and is its own file name.
pub proof fn file_names_stand_for_themselves(spec: Seq<char>)
    ensures
        forall|i: int| 0 <= i < file_name(spec).len() ==> is_safe(#[trigger] file_name(spec)[i]),
        file_name(file_name(spec)) == file_name(spec),
{
    let suffix = ".git"@;
    reveal_strlit(".git");
    let kept = without_suffix(trimmed(spec), suffix);
    let out = file_name(spec);
    lemma_without_suffix(trimmed(spec), suffix);
    assert forall|i: int| 0 <= i < out.len() implies is_safe(#[trigger] out[i]) && !is_white(out[i]) by {
        assert(out[i] == safe_char(kept[i]));
    }
    assert(without_leading_white(out) == out);
    assert(trimmed(out) == out);
    if suffix.is_suffix_of(out) {
        let n = out.len() - 4;
        assert(kept.subrange(n, out.len() as int) =~= suffix) by {
            assert forall|j: int| 0 <= j < 4 implies kept[n + j] == suffix[j] by {
                assert(out.subrange(n, out.len() as int)[j] == suffix[j]);
                assert(out[n + j] == safe_char(kept[n + j]));
            }
        }
    }
    assert(without_suffix(out, suffix) == out);
    assert(out.map_values(|c: char| safe_char(c)) =~= out);
}

/// Where the working copies are kept, under the home directory.
pub const SYNC_DIRECTORY: &'static str = ".local/share/ccusage/sync";

/// The directory of the working copy of a repository.
pub fn sync_work_dir(home: Option<&str>, repo_spec: &str) -> (out: Result<String, SyncError>)
    ensures
        match (home, out) {
            (Some(home), Ok(path)) => path@ == path_under(
                path_under(home@, SYNC_DIRECTORY@),
                file_name(repo_spec@),
            ),
            (None, Err(error)) => error == SyncError::NoHome,
            _ => false,
        },
{
    match home {
        Some(home) => {
            let base = join_path(home, SYNC_DIRECTORY);
            let name = sanitize_repo_name(repo_spec);
            Ok(join_path(base.as_str(), name.as_str()))
        },
        None => Err(SyncError::NoHome),
    }
}

/// The file of a machine's snapshot: the file name of the machine with the extension `json`.
pub fn snapshot_file(machine: &str) -> (out: String)
    ensures
        out@ == file_name(machine@) + ".json"@,
{
    concat2(sanitize_machine(machine).as_str(), ".json")
}

/// A file name has the extension `json`: it ends with `.json` and has something before it.
pub open spec fn is_json_file(name: Seq<char>) -> bool {
    ".json"@.is_suffix_of(name) && name.len() > 5
}

/// Whether a file of the data directory is the snapshot of another machine: a JSON file other
/// than our own.
pub fn is_other_snapshot(name: &str, own: &str) -> (r: bool)
    ensures
        r == (name@ != own@ && is_json_file(name@)),
{
    let chars = chars_of(name);
    let suffix = chars_of(".json");
    proof {
        reveal_strlit(".json");
    }
    if chars.len() <= 5 {
        return false;
    }
    assert(chars@.take(chars@.len() as int) =~= name@);
    if !ends_with(&chars, chars.len(), &suffix) {
        return false;
    }
    !crate::order::same_text(name, own)
}

/// The machines of a report: all of them up to three, then how many more there are.
pub open spec fn machines_text(machines: Seq<Seq<char>>) -> Seq<char> {
    if machines.len() <= 3 {
        joined(machines, ", "@)
    } else {
        joined(machines.take(3), ", "@) + ", +"@ + decimal((machines.len() - 3) as nat) + " more"@
    }
}

/// The machines of a report.
pub fn machine_label(machines: &Vec<String>) -> (out: String)
    ensures
        out@ == machines_text(texts(machines@)),
{
    if machines.len() <= 3 {
        join(machines, ", ")
    } else {
        let mut first: Vec<String> = Vec::new();
        first.push(machines[0].clone());
        first.push(machines[1].clone());
        first.push(machines[2].clone());
        assert(texts(first@) =~= texts(machines@).take(3));
        let mut out = join(&first, ", ");
        out.append(", +");
        let more = number((machines.len() - 3) as u64);
        out.append(more.as_str());
        out.append(" more");
        out
    }
}

/// A name without the white space around it, where something is left.
pub open spec fn usable_name(name: Option<String>) -> Option<Seq<char>> {
    match name {
        Some(text) if trimmed(text@).len() > 0 => Some(trimmed(text@)),
        _ => None,
    }
}

/// A name without the white space around it, where something is left.
pub fn usable(name: Option<String>) -> (out: Option<String>)
    ensures
        match out {
            Some(text) => usable_name(name) == Some(text@),
            None => usable_name(name) is None,
        },
{
    match name {
        Some(text) => {
            let text = trim(text.as_str());
            if text.as_str().is_empty() {
                None
            } else {
                Some(text)
            }
        },
        None => None,
    }
}

/// The machine's own name: that of the environment, or else what the `hostname` program prints.
pub fn default_machine_name(environment: Option<String>, printed: Option<String>) -> (out: String)
    ensures
        out@ == (match (usable_name(environment), usable_name(printed)) {
            (Some(name), _) => name,
            (None, Some(name)) => name,
            (None, None) => "unknown-machine"@,
        }),
{
    match usable(environment) {
        Some(name) => name,
        None => match usable(printed) {
            Some(name) => name,
            None => "unknown-machine".to_owned(),
        },
    }
}

} // verus!
