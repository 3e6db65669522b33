//! The lines of a log that are worth parsing.

use vstd::prelude::*;
use vstd::string::*;
use vstd::utf8::*;

verus! {

/// The byte that ends a line.
pub const NEWLINE: u8 = 10;

/// The lines of a log. What follows the last line end is a line too.
pub open spec fn split_lines(content: Seq<u8>) -> Seq<Seq<u8>>
    decreases content.len(),
{
    if content.len() == 0 {
        seq![Seq::empty()]
    } else {
        let before = split_lines(content.drop_last());
        if content.last() == NEWLINE {
            before.push(Seq::empty())
        } else {
            before.drop_last().push(before.last().push(content.last()))
        }
    }
}

/// `part` stands in `line` at the position `at`.
pub open spec fn found_at(line: Seq<u8>, at: int, part: Seq<u8>) -> bool {
    0 <= at && at + part.len() <= line.len() && line.subrange(at, at + part.len() as int) == part
}

/// `part` stands somewhere in `line`.
pub open spec fn holds(line: Seq<u8>, part: Seq<u8>) -> bool {
    exists|at: int| found_at(line, at, part)
}

/// The line holds every one of the texts.
pub open spec fn holds_all(line: Seq<u8>, parts: Seq<&'static str>) -> bool {
    forall|k: int| 0 <= k < parts.len() ==> holds(line, encode_utf8((#[trigger] parts[k])@))
}

/// The lines of a log that hold every one of the texts.
pub open spec fn wanted_lines(content: Seq<u8>, parts: Seq<&'static str>) -> Seq<Seq<u8>> {
    split_lines(content).filter(|line: Seq<u8>| holds_all(line, parts))
}

/// Lines by their bytes.
pub open spec fn line_views(lines: Seq<Vec<u8>>) -> Seq<Seq<u8>> {
    lines.map_values(|line: Vec<u8>| line@)
}

fn is_found_at(line: &Vec<u8>, at: usize, part: &[u8]) -> (r: bool)
    requires
        at <= line@.len(),
    ensures
        r == found_at(line@, at as int, part@),
{
    let length: usize = line.len();
    if part.len() > length - at {
        return false;
    }
    let mut i: usize = 0;
    while i < part.len()
        invariant
            i <= part@.len(),
            length == line@.len(),
            at + part@.len() <= length,
            forall|j: int| 0 <= j < i ==> line@[at + j] == part@[j],
        decreases part@.len() - i,
    {
        if line[at + i] != part[i] {
            assert(line@.subrange(at as int, at + part@.len() as int)[i as int] != part@[i as int]);
            return false;
        }
        i = i + 1;
    }
    assert(line@.subrange(at as int, at + part@.len() as int) =~= part@);
    true
}

fn does_hold(line: &Vec<u8>, part: &str) -> (r: bool)
    ensures
        r == holds(line@, encode_utf8(part@)),
{
    let bytes = part.as_bytes();
    let mut at: usize = 0;
    while at < line.len()
        invariant
            at <= line@.len(),
            bytes@ == encode_utf8(part@),
            forall|j: int| 0 <= j < at ==> !found_at(line@, j, bytes@),
        decreases line@.len() - at,
    {
        if is_found_at(line, at, bytes) {
            return true;
        }
        at = at + 1;
    }
    is_found_at(line, at, bytes)
}

fn does_hold_all(line: &Vec<u8>, parts: &Vec<&'static str>) -> (r: bool)
    ensures
        r == holds_all(line@, parts@),
{
    let mut k: usize = 0;
    while k < parts.len()
        invariant
            k <= parts@.len(),
            forall|j: int| 0 <= j < k ==> holds(line@, encode_utf8((#[trigger] parts@[j])@)),
        decreases parts@.len() - k,
    {
        if !does_hold(line, parts[k]) {
            return false;
        }
        k = k + 1;
    }
    true
}

fn keep_line(kept: &mut Vec<Vec<u8>>, line: Vec<u8>, parts: &Vec<&'static str>)
    ensures
        line_views(final(kept)@) == (if holds_all(line@, parts@) {
            line_views(old(kept)@).push(line@)
        } else {
            line_views(old(kept)@)
        }),
{
    if does_hold_all(&line, parts) {
        kept.push(line);
        assert(line_views(kept@) =~= line_views(old(kept)@).push(line@));
    }
}

/// The lines of a log that hold every one of the texts.
pub fn matching_lines(content: &Vec<u8>, parts: &Vec<&'static str>) -> (out: Vec<Vec<u8>>)
    ensures
        line_views(out@) == wanted_lines(content@, parts@),
{
    let ghost test = |line: Seq<u8>| holds_all(line, parts@);
    let mut kept: Vec<Vec<u8>> = Vec::new();
    let mut line: Vec<u8> = Vec::new();
    let mut i: usize = 0;
    let ghost mut done = Seq::<Seq<u8>>::empty();
    proof {
        assert(content@.take(0) =~= Seq::empty());
        assert(split_lines(content@.take(0)) =~= done.push(line@));
        done.lemma_filter_len(test);
        assert(line_views(kept@) =~= done.filter(test));
    }
    while i < content.len()
        invariant
            i <= content@.len(),
            test == (|line: Seq<u8>| holds_all(line, parts@)),
            split_lines(content@.take(i as int)) == done.push(line@),
            line_views(kept@) == done.filter(test),
        decreases content@.len() - i,
    {
        let byte: u8 = content[i];
        let ghost so_far = content@.take(i as int);
        let ghost grown = content@.take(i + 1);
        assert(grown.drop_last() =~= so_far);
        if byte == NEWLINE {
            proof {
                done.lemma_filter_push(line@, test);
                assert(split_lines(grown) =~= done.push(line@).push(Seq::empty()));
                done = done.push(line@);
            }
            keep_line(&mut kept, line, parts);
            line = Vec::new();
        } else {
            let ghost before = line@;
            line.push(byte);
            proof {
                assert(done.push(before).drop_last() =~= done);
                assert(split_lines(grown) =~= done.push(line@));
            }
        }
        i = i + 1;
    }
    proof {
        assert(content@.take(content@.len() as int) =~= content@);
        done.lemma_filter_push(line@, test);
    }
    keep_line(&mut kept, line, parts);
    kept
}

/// Only generations have token counts, under a fact: the ledger lines that hold both words.
pub open spec fn generation_marks() -> Seq<&'static str> {
    seq!["\"generation\"", "\"fact\""]
}

/// The session log lines that may start a session.
pub open spec fn session_marks() -> Seq<&'static str> {
    seq!["\"session_started\""]
}

/// The lines of a usage ledger that may be generations.
pub fn generation_lines(content: &Vec<u8>) -> (out: Vec<Vec<u8>>)
    ensures
        line_views(out@) == wanted_lines(content@, generation_marks()),
{
    let marks: Vec<&'static str> = vec!["\"generation\"", "\"fact\""];
    assert(marks@ =~= generation_marks());
    matching_lines(content, &marks)
}

/// The lines of a session log that may start a session.
pub fn session_lines(content: &Vec<u8>) -> (out: Vec<Vec<u8>>)
    ensures
        line_views(out@) == wanted_lines(content@, session_marks()),
{
    let marks: Vec<&'static str> = vec!["\"session_started\""];
    assert(marks@ =~= session_marks());
    matching_lines(content, &marks)
}

} // verus!
