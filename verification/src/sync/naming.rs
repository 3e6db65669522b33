//! How repositories and machines are named.

use vstd::prelude::*;
use vstd::string::*;
use crate::sync::repo::{
    address, chosen_repo, file_name, is_location, is_safe, machines_text, usable_name,
    without_suffix,
};
use crate::text::{
    cut, decimal, is_white, joined, lemma_first_at_unique, trimmed, without_leading_white,
    without_trailing_white,
};

verus! {

/// The text has no white space at its ends.
pub open spec fn is_tight(text: Seq<char>) -> bool {
    text.len() > 0 && !is_white(text[0]) && !is_white(text.last())
}

proof fn lemma_tight(text: Seq<char>)
    requires
        is_tight(text),
    ensures
        trimmed(text) == text,
{
    assert(without_leading_white(text) == text);
    assert(without_trailing_white(text) == text);
}

/// The shorthand of an owner and a name stands for the GitHub repository of that name, with both
/// in their places.
pub proof fn shorthands_become_addresses(owner: Seq<char>, name: Seq<char>)
    requires
        owner.len() > 0,
        name.len() > 0,
        !owner.contains('/'),
        is_tight(owner + "/"@ + name),
        !is_location(owner + "/"@ + name),
    ensures
        address(owner + "/"@ + name) == "https://github.com/"@ + owner + "/"@ + name + ".git"@,
{
    reveal_strlit("/");
    let spec = owner + "/"@ + name;
    lemma_tight(spec);
    assert forall|i: int| 0 <= i < owner.len() implies spec[i] != '/' by {
        assert(owner.contains(owner[i]));
    }
    lemma_first_at_unique(spec, '/', owner.len() as int);
    assert(spec.take(owner.len() as int) =~= owner);
    assert(spec.skip(owner.len() as int + 1) =~= name);
}

/// URLs, paths and texts without a slash are cloned as they are.
pub proof fn other_addresses_stay(spec: Seq<char>)
    requires
        is_tight(spec),
        is_location(spec) || !spec.contains('/'),
    ensures
        address(spec) == spec,
{
    lemma_tight(spec);
    crate::text::lemma_first_at(spec, '/');
    if let Some((owner, repo)) = cut(spec, '/') {
        let at = crate::text::first_at(spec, '/');
        assert(spec.contains(spec[at]));
    }
}

/// A file name stands for its repository character by character: safe characters stay and others
/// become dashes, and a `.git` at the end does not matter.
pub proof fn file_names_follow_their_text(spec: Seq<char>)
    requires
        is_tight(spec),
        !".git"@.is_suffix_of(spec),
    ensures
        file_name(spec).len() == spec.len(),
        forall|i: int|
            0 <= i < spec.len() ==> #[trigger] file_name(spec)[i] == (if is_safe(spec[i]) {
                spec[i]
            } else {
                '-'
            }),
        file_name(spec + ".git"@) == file_name(spec),
{
    reveal_strlit(".git");
    lemma_tight(spec);
    let longer = spec + ".git"@;
    assert(longer.last() == 't');
    lemma_tight(longer);
    assert(longer.skip(spec.len() as int) =~= ".git"@);
    assert(longer.take(longer.len() - 4) =~= spec);
    assert(".git"@.is_suffix_of(longer));
    reveal_with_fuel(without_suffix, 3);
    assert(without_suffix(longer, ".git"@) == spec);
    assert(without_suffix(spec, ".git"@) == spec);
}

/// The repository of the command outweighs that of the environment, blank or not.
pub proof fn the_command_names_the_repository(
    argument: Option<String>,
    environment: Option<String>,
    other: Option<String>,
)
    ensures
        argument is Some ==> chosen_repo(argument, environment) == chosen_repo(argument, other),
        argument is None ==> chosen_repo(argument, environment) == chosen_repo(environment, other)
            || environment is None,
        argument is None && environment is None ==> chosen_repo(argument, environment) is None,
        chosen_repo(argument, environment) matches Some(repo) ==> {
            &&& argument == Some(repo) || environment == Some(repo)
            &&& trimmed(repo@).len() > 0
        },
        argument is Some && trimmed(argument->0@).len() > 0 ==> chosen_repo(argument, environment)
            == argument,
{
}

/// Up to three machines are named; of more the first three are, and the others counted.
pub proof fn machines_are_named_or_counted(machines: Seq<Seq<char>>, more: Seq<Seq<char>>)
    requires
        machines.len() == 3,
    ensures
        machines_text(machines) == machines[0] + ", "@ + machines[1] + ", "@ + machines[2],
        more.len() > 0 ==> machines_text(machines + more) == machines_text(machines) + ", +"@
            + decimal(more.len()) + " more"@,
        machines_text(machines.take(2)) == machines[0] + ", "@ + machines[1],
        machines_text(machines.take(1)) == machines[0],
{
    let two = machines.take(2);
    let one = machines.take(1);
    assert(machines.drop_last() =~= two);
    assert(two.drop_last() =~= one);
    assert(joined(one, ", "@) == machines[0]);
    assert(joined(two, ", "@) == machines[0] + ", "@ + machines[1]);
    assert((machines + more).take(3) =~= machines);
}

/// A usable name has no white space at its ends and is what is left of the name without it.
pub proof fn usable_names_are_tight(name: Option<String>)
    ensures
        usable_name(name) matches Some(text) ==> is_tight(text) && text == trimmed(name->0@),
        name is Some && trimmed(name->0@).len() > 0 ==> usable_name(name) is Some,
{
    if let Some(text) = name {
        crate::sync::repo::trimming_twice_is_trimming_once(text@);
    }
}

/// The text is made of spaces, tabs and line ends.
pub open spec fn is_blank(text: Seq<char>) -> bool {
    forall|i: int|
        0 <= i < text.len() ==> #[trigger] text[i] == ' ' || text[i] == '\t' || text[i] == '\n'
            || text[i] == '\r'
}

/// Trimming takes the blanks off around a text and nothing else.
pub proof fn trimming_takes_blanks_off(before: Seq<char>, core: Seq<char>, after: Seq<char>)
    requires
        is_blank(before),
        is_blank(after),
        is_tight(core),
    ensures
        trimmed(before + core + after) == core,
{
    lemma_blanks_before(before, core + after);
    assert(before + (core + after) =~= before + core + after);
    assert(without_leading_white(core + after) == core + after);
    lemma_blanks_after(core, after);
}

proof fn lemma_blanks_before(before: Seq<char>, rest: Seq<char>)
    requires
        is_blank(before),
    ensures
        without_leading_white(before + rest) == without_leading_white(rest),
    decreases before.len(),
{
    if before.len() == 0 {
        assert(before + rest =~= rest);
    } else {
        let fewer = before.drop_first();
        assert forall|i: int| 0 <= i < fewer.len() implies #[trigger] fewer[i] == ' ' || fewer[i]
            == '\t' || fewer[i] == '\n' || fewer[i] == '\r' by {
            assert(fewer[i] == before[i + 1]);
        }
        assert((before + rest)[0] == before[0]);
        assert((before + rest).drop_first() =~= fewer + rest);
        lemma_blanks_before(fewer, rest);
    }
}

proof fn lemma_blanks_after(core: Seq<char>, after: Seq<char>)
    requires
        is_blank(after),
        is_tight(core),
    ensures
        without_trailing_white(core + after) == core,
    decreases after.len(),
{
    if after.len() == 0 {
        assert(core + after =~= core);
    } else {
        let fewer = after.drop_last();
        assert forall|i: int| 0 <= i < fewer.len() implies #[trigger] fewer[i] == ' ' || fewer[i]
            == '\t' || fewer[i] == '\n' || fewer[i] == '\r' by {
            assert(fewer[i] == after[i]);
        }
        assert((core + after).last() == after[after.len() - 1]);
        assert((core + after).drop_last() =~= core + fewer);
        lemma_blanks_after(core, fewer);
    }
}

} // verus!
