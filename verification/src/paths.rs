//! The directories in which agents keep their data.
//!
//! Paths are texts with `/` between their components.

use vstd::prelude::*;
use vstd::string::*;
use crate::order::same_text;
use crate::text::{
    concat2, concat3, is_blank, pieces, split_all, starts_with, texts, trim, trimmed,
};

verus! {

/// There is no home directory to look under.
#[derive(Debug, Clone, Copy, PartialEq, Eq, Structural)]
pub struct NoHome;

impl NoHome {
    /// What is said of it.
    pub fn message(&self) -> (out: &'static str)
        ensures
            out == "home directory is not set",
    {
        "home directory is not set"
    }
}

/// A relative path under a directory: the separator is added where the directory does not end
/// with one. An empty directory adds nothing.
pub open spec fn path_under(directory: Seq<char>, relative: Seq<char>) -> Seq<char> {
    if directory.len() == 0 || directory.last() == '/' {
        directory + relative
    } else {
        directory + "/"@ + relative
    }
}

/// A relative path under a directory.
pub fn join_path(directory: &str, relative: &str) -> (out: String)
    ensures
        out@ == path_under(directory@, relative@),
{
    let count: usize = directory.unicode_len();
    if count == 0 || directory.get_char(count - 1) == '/' {
        concat2(directory, relative)
    } else {
        concat3(directory, "/", relative)
    }
}

/// The components among the pieces of a path: empty pieces are none, and neither is `.`, unless
/// the path begins with it.
pub open spec fn components(list: Seq<Seq<char>>) -> Seq<Seq<char>>
    decreases list.len(),
{
    if list.len() == 0 {
        Seq::empty()
    } else {
        let before = components(list.drop_last());
        if list.last().len() > 0 && (list.last() != "."@ || list.len() == 1) {
            before.push(list.last())
        } else {
            before
        }
    }
}

/// The components of a path.
pub open spec fn path_components(path: Seq<char>) -> Seq<Seq<char>> {
    components(pieces(path, '/'))
}

/// Two texts write the same path: both or neither begin at the root, and they have the same
/// components.
pub open spec fn same_path(a: Seq<char>, b: Seq<char>) -> bool {
    "/"@.is_prefix_of(a) == "/"@.is_prefix_of(b) && path_components(a) == path_components(b)
}

fn split_path(path: &str) -> (out: Vec<String>)
    ensures
        texts(out@) == path_components(path@),
{
    let list = split_all(path, '/');
    let ghost all = texts(list@);
    let mut out: Vec<String> = Vec::new();
    let mut i: usize = 0;
    assert(all.take(0) =~= Seq::empty());
    assert(texts(out@) =~= Seq::empty());
    while i < list.len()
        invariant
            i <= list@.len(),
            all == texts(list@),
            texts(out@) == components(all.take(i as int)),
        decreases list@.len() - i,
    {
        let piece = &list[i];
        assert(all.take(i + 1).drop_last() =~= all.take(i as int));
        if !piece.as_str().is_empty() && (!same_text(piece.as_str(), ".") || i == 0) {
            let ghost before = texts(out@);
            out.push(piece.clone());
            assert(texts(out@) =~= before.push(piece@));
        }
        i = i + 1;
    }
    assert(all.take(all.len() as int) =~= all);
    out
}

fn same_list(a: &Vec<String>, b: &Vec<String>) -> (r: bool)
    ensures
        r == (texts(a@) == texts(b@)),
{
    if a.len() != b.len() {
        assert(texts(a@).len() != texts(b@).len());
        return false;
    }
    let mut i: usize = 0;
    while i < a.len()
        invariant
            i <= a@.len(),
            a@.len() == b@.len(),
            forall|j: int| 0 <= j < i ==> (#[trigger] texts(a@)[j]) == texts(b@)[j],
        decreases a@.len() - i,
    {
        if !same_text(a[i].as_str(), b[i].as_str()) {
            assert(texts(a@)[i as int] != texts(b@)[i as int]);
            return false;
        }
        i = i + 1;
    }
    assert(texts(a@) =~= texts(b@));
    true
}

/// Whether two texts write the same path.
pub fn is_same_path(a: &str, b: &str) -> (r: bool)
    ensures
        r == same_path(a@, b@),
{
    starts_with(a, "/") == starts_with(b, "/") && same_list(&split_path(a), &split_path(b))
}

/// The last component of a path, where that is a name.
pub open spec fn last_name(path: Seq<char>) -> Option<Seq<char>> {
    let parts = path_components(path);
    if parts.len() > 0 && parts.last() != "."@ && parts.last() != ".."@ {
        Some(parts.last())
    } else {
        None
    }
}

/// The last component of a path, where that is a name.
pub fn name_of_path(path: &str) -> (out: Option<String>)
    ensures
        match out {
            Some(name) => last_name(path@) == Some(name@),
            None => last_name(path@) is None,
        },
{
    let parts = split_path(path);
    if parts.len() == 0 {
        assert(texts(parts@).len() == 0);
        return None;
    }
    let last = &parts[parts.len() - 1];
    assert(texts(parts@).last() == last@);
    if same_text(last.as_str(), ".") || same_text(last.as_str(), "..") {
        None
    } else {
        Some(last.clone())
    }
}

/// The texts of a list that are left when the white space around them is taken off.
pub open spec fn trimmed_names(list: Seq<Seq<char>>) -> Seq<Seq<char>>
    decreases list.len(),
{
    if list.len() == 0 {
        Seq::empty()
    } else {
        let before = trimmed_names(list.drop_last());
        let name = trimmed(list.last());
        if name.len() > 0 {
            before.push(name)
        } else {
            before
        }
    }
}

/// The paths of a list with commas between them.
pub open spec fn listed(raw: Seq<char>) -> Seq<Seq<char>> {
    trimmed_names(pieces(raw, ','))
}

/// The paths of a list with commas between them.
fn path_list(raw: &str) -> (out: Vec<String>)
    ensures
        texts(out@) == listed(raw@),
{
    let list = split_all(raw, ',');
    let ghost all = texts(list@);
    let mut out: Vec<String> = Vec::new();
    let mut i: usize = 0;
    assert(all.take(0) =~= Seq::empty());
    assert(texts(out@) =~= Seq::empty());
    while i < list.len()
        invariant
            i <= list@.len(),
            all == texts(list@),
            texts(out@) == trimmed_names(all.take(i as int)),
        decreases list@.len() - i,
    {
        assert(all.take(i + 1).drop_last() =~= all.take(i as int));
        let name = trim(list[i].as_str());
        if !name.as_str().is_empty() {
            let ghost before = texts(out@);
            out.push(name);
            assert(texts(out@) =~= before.push(name@));
        }
        i = i + 1;
    }
    assert(all.take(all.len() as int) =~= all);
    out
}

/// A text that may be missing.
pub open spec fn text_if_any(text: Option<&str>) -> Option<Seq<char>> {
    match text {
        Some(text) => Some(text@),
        None => None,
    }
}

/// A text is given and holds more than white space.
pub open spec fn is_given(text: Option<Seq<char>>) -> bool {
    text matches Some(text) && trimmed(text).len() > 0
}

/// Where an agent's data may be: the paths that were asked for, or else those of the
/// environment, or else the usual place under the home directory. Without a home directory there
/// is no usual place.
pub open spec fn candidates(
    custom: Option<Seq<char>>,
    environment: Option<Seq<char>>,
    home: Option<Seq<char>>,
    usual: Seq<char>,
) -> Option<Seq<Seq<char>>> {
    if is_given(custom) {
        Some(listed(custom->0))
    } else if is_given(environment) {
        Some(listed(environment->0))
    } else {
        match home {
            Some(home) => Some(seq![path_under(home, usual)]),
            None => None,
        }
    }
}

/// Where an agent's data may be.
pub fn candidate_paths(
    custom: Option<&str>,
    environment: Option<&str>,
    home: Option<&str>,
    usual: &str,
) -> (out: Result<Vec<String>, NoHome>)
    ensures
        match out {
            Ok(paths) => candidates(
                text_if_any(custom),
                text_if_any(environment),
                text_if_any(home),
                usual@,
            ) == Some(texts(paths@)),
            Err(_) => candidates(
                text_if_any(custom),
                text_if_any(environment),
                text_if_any(home),
                usual@,
            ) is None,
        },
{
    if let Some(raw) = custom {
        if !is_blank(raw) {
            return Ok(path_list(raw));
        }
    }
    if let Some(raw) = environment {
        if !is_blank(raw) {
            return Ok(path_list(raw));
        }
    }
    match home {
        Some(home) => {
            let path = join_path(home, usual);
            let mut out: Vec<String> = Vec::new();
            out.push(path);
            assert(texts(out@) =~= seq![path@]);
            Ok(out)
        },
        None => Err(NoHome),
    }
}

/// One of the texts writes the path.
pub open spec fn writes(list: Seq<Seq<char>>, path: Seq<char>) -> bool {
    exists|i: int| 0 <= i < list.len() && #[trigger] same_path(list[i], path)
}

/// The paths that are directories, each once: of several texts for one path the first stays.
pub open spec fn existing(paths: Seq<Seq<char>>, directories: Seq<Seq<char>>) -> Seq<Seq<char>>
    decreases paths.len(),
{
    if paths.len() == 0 {
        Seq::empty()
    } else {
        let before = existing(paths.drop_last(), directories);
        if directories.contains(paths.last()) && !writes(before, paths.last()) {
            before.push(paths.last())
        } else {
            before
        }
    }
}

/// Whether the text is one of the list.
pub fn is_listed(list: &Vec<String>, text: &str) -> (r: bool)
    ensures
        r == texts(list@).contains(text@),
{
    let mut i: usize = 0;
    while i < list.len()
        invariant
            i <= list@.len(),
            forall|j: int| 0 <= j < i ==> (#[trigger] texts(list@)[j]) != text@,
        decreases list@.len() - i,
    {
        if same_text(list[i].as_str(), text) {
            assert(texts(list@)[i as int] == text@);
            return true;
        }
        i = i + 1;
    }
    false
}

fn is_written(list: &Vec<String>, path: &str) -> (r: bool)
    ensures
        r == writes(texts(list@), path@),
{
    let mut i: usize = 0;
    while i < list.len()
        invariant
            i <= list@.len(),
            forall|j: int| 0 <= j < i ==> !(#[trigger] same_path(texts(list@)[j], path@)),
        decreases list@.len() - i,
    {
        assert(texts(list@)[i as int] == list@[i as int]@);
        if is_same_path(list[i].as_str(), path) {
            return true;
        }
        i = i + 1;
    }
    false
}

/// The paths that are directories, each once.
pub fn existing_paths(paths: &Vec<String>, directories: &Vec<String>) -> (out: Vec<String>)
    ensures
        texts(out@) == existing(texts(paths@), texts(directories@)),
{
    let ghost all = texts(paths@);
    let mut out: Vec<String> = Vec::new();
    let mut i: usize = 0;
    assert(all.take(0) =~= Seq::empty());
    assert(texts(out@) =~= Seq::empty());
    while i < paths.len()
        invariant
            i <= paths@.len(),
            all == texts(paths@),
            texts(out@) == existing(all.take(i as int), texts(directories@)),
        decreases paths@.len() - i,
    {
        assert(all.take(i + 1).drop_last() =~= all.take(i as int));
        assert(all.take(i + 1).last() == paths@[i as int]@);
        if is_listed(directories, paths[i].as_str()) && !is_written(&out, paths[i].as_str()) {
            let ghost before = texts(out@);
            out.push(paths[i].clone());
            assert(texts(out@) =~= before.push(paths@[i as int]@));
        }
        i = i + 1;
    }
    assert(all.take(all.len() as int) =~= all);
    out
}

/// The data directories of an agent.
pub open spec fn data_directories(
    custom: Option<Seq<char>>,
    environment: Option<Seq<char>>,
    home: Option<Seq<char>>,
    usual: Seq<char>,
    directories: Seq<Seq<char>>,
) -> Option<Seq<Seq<char>>> {
    match candidates(custom, environment, home, usual) {
        Some(paths) => Some(existing(paths, directories)),
        None => None,
    }
}

/// The data directories of an agent, where `directories` are the candidates that are
/// directories.
pub fn find_directories(
    custom: Option<&str>,
    environment: Option<&str>,
    home: Option<&str>,
    usual: &str,
    directories: &Vec<String>,
) -> (out: Result<Vec<String>, NoHome>)
    ensures
        match out {
            Ok(paths) => data_directories(
                text_if_any(custom),
                text_if_any(environment),
                text_if_any(home),
                usual@,
                texts(directories@),
            ) == Some(texts(paths@)),
            Err(_) => data_directories(
                text_if_any(custom),
                text_if_any(environment),
                text_if_any(home),
                usual@,
                texts(directories@),
            ) is None,
        },
{
    match candidate_paths(custom, environment, home, usual) {
        Ok(paths) => Ok(existing_paths(&paths, directories)),
        Err(error) => Err(error),
    }
}

/// The data directories are directories out of the candidates, no two of them are the same path,
/// and every candidate that is a directory is among them under one of its texts.
pub proof fn each_directory_is_found_once(paths: Seq<Seq<char>>, directories: Seq<Seq<char>>)
    ensures
        ({
            let found = existing(paths, directories);
            &&& forall|i: int|
                0 <= i < found.len() ==> paths.contains(#[trigger] found[i])
                    && directories.contains(found[i])
            &&& forall|i: int, j: int|
                0 <= i < j < found.len() ==> !same_path(#[trigger] found[i], #[trigger] found[j])
            &&& forall|i: int|
                0 <= i < paths.len() && directories.contains(#[trigger] paths[i]) ==> writes(
                    found,
                    paths[i],
                )
        }),
    decreases paths.len(),
{
    if paths.len() > 0 {
        let before = paths.drop_last();
        let last = paths.last();
        each_directory_is_found_once(before, directories);
        let earlier = existing(before, directories);
        let found = existing(paths, directories);
        assert forall|i: int| 0 <= i < found.len() implies paths.contains(#[trigger] found[i])
            && directories.contains(found[i]) by {
            if i < earlier.len() {
                assert(earlier[i] == found[i]);
                let k = choose|k: int| 0 <= k < before.len() && before[k] == earlier[i];
                assert(paths[k] == found[i]);
            } else {
                assert(paths[paths.len() - 1] == found[i]);
            }
        }
        assert forall|i: int, j: int| 0 <= i < j < found.len() implies !same_path(
            #[trigger] found[i],
            #[trigger] found[j],
        ) by {
            assert(earlier[i] == found[i]);
            if j < earlier.len() {
                assert(earlier[j] == found[j]);
            }
        }
        assert forall|i: int|
            0 <= i < paths.len() && directories.contains(#[trigger] paths[i]) implies writes(
            found,
            paths[i],
        ) by {
            let path = paths[i];
            if i < before.len() {
                assert(before[i] == path);
                let k = choose|k: int|
                    0 <= k < earlier.len() && #[trigger] same_path(earlier[k], path);
                assert(same_path(found[k], path));
            } else if writes(earlier, path) {
                let k = choose|k: int|
                    0 <= k < earlier.len() && #[trigger] same_path(earlier[k], path);
                assert(same_path(found[k], path));
            } else {
                assert(same_path(found[earlier.len() as int], path));
            }
        }
    }
}

/// Naming a path again, at the end of a list that has it, changes nothing.
pub proof fn a_path_named_twice_is_found_once(
    paths: Seq<Seq<char>>,
    directories: Seq<Seq<char>>,
    i: int,
)
    requires
        0 <= i < paths.len(),
    ensures
        existing(paths.push(paths[i]), directories) == existing(paths, directories),
{
    each_directory_is_found_once(paths, directories);
    assert(paths.push(paths[i]).drop_last() =~= paths);
}

} // verus!
