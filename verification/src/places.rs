//! Where data is looked for: which of the places that are named count, and in what order.

use vstd::prelude::*;
use vstd::string::*;
use crate::paths::{
    candidates, components, each_directory_is_found_once, existing, is_given, listed,
    path_components, path_under, same_path, trimmed_names, writes,
};
use crate::text::{
    first_at, is_white, joined, lemma_first_at, lemma_first_at_unique, pieces,
    without_leading_white, without_trailing_white,
};

verus! {

/// A text without commas, and without white space at its ends, that is not empty.
pub open spec fn is_plain(name: Seq<char>) -> bool {
    &&& name.len() > 0
    &&& !name.contains(',')
    &&& !is_white(name[0])
    &&& !is_white(name.last())
}

/// What stands behind a last separator is the last piece.
pub proof fn lemma_pieces_push(front: Seq<char>, name: Seq<char>, c: char)
    requires
        !name.contains(c),
    ensures
        pieces(front.push(c) + name, c) == pieces(front, c).push(name),
    decreases front.len(),
{
    let whole = front.push(c) + name;
    let at = first_at(front, c);
    lemma_first_at(front, c);
    if at < front.len() {
        lemma_first_at_unique(whole, c, at);
        let rest = front.skip(at + 1);
        assert(whole.take(at) =~= front.take(at));
        assert(whole.skip(at + 1) =~= rest.push(c) + name);
        lemma_pieces_push(rest, name, c);
        assert(pieces(whole, c) =~= pieces(front, c).push(name));
    } else {
        lemma_first_at_unique(whole, c, front.len() as int);
        assert(whole.take(front.len() as int) =~= front);
        assert(whole.skip(front.len() as int + 1) =~= name);
        lemma_single_piece(name, c);
        assert(pieces(whole, c) =~= pieces(front, c).push(name));
    }
}

proof fn lemma_single_piece(name: Seq<char>, c: char)
    requires
        !name.contains(c),
    ensures
        pieces(name, c) == seq![name],
{
    lemma_first_at(name, c);
    if first_at(name, c) < name.len() {
        assert(name.contains(name[first_at(name, c)]));
    }
}

/// A list with commas gives back the names that were put into it, in order.
pub proof fn lists_give_their_names_back(names: Seq<Seq<char>>)
    requires
        names.len() > 0,
        forall|i: int| 0 <= i < names.len() ==> is_plain(#[trigger] names[i]),
    ensures
        listed(joined(names, ","@)) == names,
{
    reveal_strlit(",");
    lemma_names_split(names);
    lemma_names_trimmed(names);
}

proof fn lemma_names_split(names: Seq<Seq<char>>)
    requires
        names.len() > 0,
        forall|i: int| 0 <= i < names.len() ==> is_plain(#[trigger] names[i]),
    ensures
        pieces(joined(names, ","@), ',') == names,
    decreases names.len(),
{
    reveal_strlit(",");
    let last = names.last();
    assert(is_plain(names[names.len() - 1]));
    if names.len() == 1 {
        lemma_single_piece(last, ',');
        assert(names =~= seq![last]);
    } else {
        let rest = names.drop_last();
        assert forall|i: int| 0 <= i < rest.len() implies is_plain(#[trigger] rest[i]) by {
            assert(rest[i] == names[i]);
        }
        lemma_names_split(rest);
        lemma_pieces_push(joined(rest, ","@), last, ',');
        assert(joined(names, ","@) =~= joined(rest, ","@).push(',') + last);
        assert(names =~= rest.push(last));
    }
}

proof fn lemma_names_trimmed(names: Seq<Seq<char>>)
    requires
        forall|i: int| 0 <= i < names.len() ==> is_plain(#[trigger] names[i]),
    ensures
        trimmed_names(names) == names,
    decreases names.len(),
{
    if names.len() > 0 {
        let rest = names.drop_last();
        assert forall|i: int| 0 <= i < rest.len() implies is_plain(#[trigger] rest[i]) by {
            assert(rest[i] == names[i]);
        }
        lemma_names_trimmed(rest);
        assert(is_plain(names[names.len() - 1]));
        assert(without_leading_white(names.last()) == names.last());
        assert(without_trailing_white(names.last()) == names.last());
        assert(names =~= rest.push(names.last()));
    } else {
        assert(trimmed_names(names) =~= names);
    }
}

/// What was asked for outweighs the environment, and the environment outweighs the usual place.
/// Both name their places in the same way; without either there is one place, under the home
/// directory, or none without a home directory.
pub proof fn the_nearest_wish_counts(
    custom: Option<Seq<char>>,
    environment: Option<Seq<char>>,
    other_environment: Option<Seq<char>>,
    home: Option<Seq<char>>,
    other_home: Option<Seq<char>>,
    usual: Seq<char>,
)
    ensures
        is_given(custom) ==> candidates(custom, environment, home, usual) == candidates(
            custom,
            other_environment,
            other_home,
            usual,
        ),
        is_given(custom) && !is_given(environment) ==> candidates(custom, environment, home, usual)
            == candidates(environment, custom, other_home, usual),
        is_given(environment) ==> candidates(custom, environment, home, usual) == candidates(
            custom,
            environment,
            other_home,
            usual,
        ),
        is_given(custom) || is_given(environment) || home is Some <==> candidates(
            custom,
            environment,
            home,
            usual,
        ) is Some,
        !is_given(custom) && !is_given(environment) && home is Some ==> {
            let places = candidates(custom, environment, home, usual)->0;
            &&& places.len() == 1
            &&& home->0.is_prefix_of(places[0])
            &&& usual.is_suffix_of(places[0])
            &&& places[0].len() <= home->0.len() + 1 + usual.len()
        },
        is_given(custom) ==> candidates(custom, environment, home, usual) == Some(
            listed(custom->0),
        ),
{
    reveal_strlit("/");
    if !is_given(custom) && !is_given(environment) && home is Some {
        let place = path_under(home->0, usual);
        assert(home->0 =~= place.take(home->0.len() as int));
        assert(usual =~= place.skip(place.len() - usual.len()));
    }
}

/// What stands under a directory begins with the directory and ends with what stands under it,
/// with just one separator between the two where the directory has none.
pub proof fn paths_stand_under_their_directory(directory: Seq<char>, relative: Seq<char>)
    requires
        directory.len() > 0,
    ensures
        ({
            let path = path_under(directory, relative);
            let n = (path.len() - relative.len()) as int;
            &&& directory.is_prefix_of(path)
            &&& path.skip(n) == relative
            &&& path[n - 1] == '/'
            &&& n == directory.len() + (if directory.last() == '/' {
                0int
            } else {
                1
            })
        }),
{
    reveal_strlit("/");
    let path = path_under(directory, relative);
    assert(directory =~= path.take(directory.len() as int));
    assert(path.skip(path.len() - relative.len()) =~= relative);
}

/// Of several texts for one path the first counts: a candidate that is a directory is found where
/// no candidate before it is a directory of the same path.
pub proof fn the_first_text_of_a_path_counts(
    paths: Seq<Seq<char>>,
    directories: Seq<Seq<char>>,
    i: int,
)
    requires
        0 <= i < paths.len(),
        directories.contains(paths[i]),
        forall|j: int|
            0 <= j < i && directories.contains(#[trigger] paths[j]) ==> !same_path(
                paths[j],
                paths[i],
            ),
    ensures
        existing(paths, directories).contains(paths[i]),
    decreases paths.len(),
{
    let rest = paths.drop_last();
    let before = existing(rest, directories);
    let found = existing(paths, directories);
    if i < rest.len() {
        assert forall|j: int| 0 <= j < i && directories.contains(#[trigger] rest[j]) implies !same_path(
            rest[j],
            rest[i],
        ) by {
            assert(rest[j] == paths[j]);
        }
        the_first_text_of_a_path_counts(rest, directories, i);
        let k = choose|k: int| 0 <= k < before.len() && before[k] == rest[i];
        assert(found[k] == paths[i]);
    } else {
        each_directory_is_found_once(rest, directories);
        if writes(before, paths[i]) {
            let k = choose|k: int| 0 <= k < before.len() && #[trigger] same_path(before[k], paths[i]);
            assert(rest.contains(before[k]) && directories.contains(before[k]));
            let j = choose|j: int| 0 <= j < rest.len() && rest[j] == before[k];
            assert(paths[j] == before[k]);
        }
        assert(found[found.len() - 1] == paths[i]);
    }
}

/// The directories are found in the order in which they are named.
pub proof fn directories_keep_their_order(
    paths: Seq<Seq<char>>,
    directories: Seq<Seq<char>>,
    i: int,
    j: int,
) -> (places: (int, int))
    requires
        0 <= i < j < existing(paths, directories).len(),
    ensures
        0 <= places.0 < places.1 < paths.len(),
        paths[places.0] == existing(paths, directories)[i],
        paths[places.1] == existing(paths, directories)[j],
    decreases paths.len(),
{
    let rest = paths.drop_last();
    let before = existing(rest, directories);
    if j < before.len() {
        directories_keep_their_order(rest, directories, i, j)
    } else {
        each_directory_is_found_once(rest, directories);
        assert(rest.contains(before[i]));
        let a = choose|a: int| 0 <= a < rest.len() && rest[a] == before[i];
        (a, paths.len() - 1)
    }
}

/// A component of a path that is a name.
pub open spec fn is_name(name: Seq<char>) -> bool {
    name.len() > 0 && !name.contains('/') && name != "."@
}

/// Detours do not make another path: a separator more, a `.` on the way and a separator at the end
/// do not matter. Other names do.
pub proof fn detours_do_not_matter(parent: Seq<char>, name: Seq<char>, other: Seq<char>)
    requires
        is_name(name),
        is_name(other),
    ensures
        same_path(parent.push('/').push('/') + name, parent.push('/') + name),
        same_path((parent.push('/') + "."@).push('/') + name, parent.push('/') + name),
        same_path((parent.push('/') + name).push('/'), parent.push('/') + name),
        same_path(parent.push('/') + name, parent.push('/') + other) <==> name == other,
{
    reveal_strlit("/");
    reveal_strlit(".");
    let none = Seq::<char>::empty();
    let direct = parent.push('/') + name;
    let twice = parent.push('/').push('/') + name;
    let dotted = (parent.push('/') + "."@).push('/') + name;
    let ended = direct.push('/');
    let elsewhere = parent.push('/') + other;
    let front = pieces(parent, '/');
    assert(!"."@.contains('/'));
    lemma_pieces_push(parent, name, '/');
    lemma_pieces_push(parent, other, '/');
    lemma_pieces_push(parent, none, '/');
    lemma_pieces_push(parent, "."@, '/');
    assert(parent.push('/') + none =~= parent.push('/'));
    lemma_pieces_push(parent.push('/'), name, '/');
    lemma_pieces_push(parent.push('/') + "."@, name, '/');
    lemma_pieces_push(direct, none, '/');
    assert(ended + none =~= ended);
    assert(front.len() > 0);
    assert(front.push(name).drop_last() =~= front);
    assert(front.push(other).drop_last() =~= front);
    assert(front.push(none).drop_last() =~= front);
    assert(front.push("."@).drop_last() =~= front);
    assert(front.push(none).push(name).drop_last() =~= front.push(none));
    assert(front.push("."@).push(name).drop_last() =~= front.push("."@));
    assert(front.push(name).push(none).drop_last() =~= front.push(name));
    let known = components(front);
    assert(components(front.push(none)) == known);
    assert(components(front.push("."@)) == known);
    assert(path_components(direct) == known.push(name));
    assert(path_components(twice) == known.push(name));
    assert(path_components(dotted) == known.push(name));
    assert(path_components(ended) == known.push(name));
    assert(path_components(elsewhere) == known.push(other));
    if known.push(name) == known.push(other) {
        assert(known.push(name).last() == known.push(other).last());
    }
    lemma_root(direct, twice);
    lemma_root(direct, dotted);
    lemma_root(direct, ended);
    lemma_root(direct, elsewhere);
}

/// Only the first character tells whether a path begins at the root.
proof fn lemma_root(a: Seq<char>, b: Seq<char>)
    requires
        a.len() > 0,
        b.len() > 0,
        a[0] == b[0],
    ensures
        "/"@.is_prefix_of(a) == "/"@.is_prefix_of(b),
{
    reveal_strlit("/");
    assert(a.take(1) =~= seq![a[0]]);
    assert(b.take(1) =~= seq![b[0]]);
}

} // verus!
