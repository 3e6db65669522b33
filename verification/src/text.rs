//! Text as sequences of characters: the few string operations the reports need.

use vstd::prelude::*;
use vstd::string::*;
use vstd::utf8::*;

verus! {

/// `String::push`: appends the character to the end of the text.
pub assume_specification[ String::push ](s: &mut String, c: char)
    ensures
        final(s)@ == old(s)@.push(c),
;

/// The characters of a text, in order.
pub fn chars_of(s: &str) -> (out: Vec<char>)
    ensures
        out@ == s@,
{
    let mut out: Vec<char> = Vec::new();
    for c in it: s.chars()
        invariant
            out@ == s@.take(it.index() as int),
            it.seq() == s@,
    {
        out.push(c);
        assert(s@.take(it.index() as int + 1) =~= s@.take(it.index() as int).push(s@[it.index() as int]));
    }
    assert(s@.take(s@.len() as int) =~= s@);
    out
}

/// The text made of the given characters.
pub fn text_of(chars: &Vec<char>, from: usize, to: usize) -> (out: String)
    requires
        from <= to <= chars@.len(),
    ensures
        out@ == chars@.subrange(from as int, to as int),
{
    let mut out = String::new();
    let mut i: usize = from;
    while i < to
        invariant
            from <= i <= to <= chars@.len(),
            out@ == chars@.subrange(from as int, i as int),
        decreases to - i,
    {
        out.push(chars[i]);
        assert(chars@.subrange(from as int, i as int + 1) =~= chars@.subrange(from as int, i as int).push(chars@[i as int]));
        i = i + 1;
    }
    out
}

/// The characters with the Unicode property White_Space.
pub open spec fn is_white(c: char) -> bool {
    let n = c as u32;
    ||| 0x9 <= n <= 0xD
    ||| n == 0x20
    ||| n == 0x85
    ||| n == 0xA0
    ||| n == 0x1680
    ||| 0x2000 <= n <= 0x200A
    ||| n == 0x2028
    ||| n == 0x2029
    ||| n == 0x202F
    ||| n == 0x205F
    ||| n == 0x3000
}

/// Whether the character is white space.
pub fn white(c: char) -> (r: bool)
    ensures
        r == is_white(c),
{
    let n: u32 = c as u32;
    (0x9 <= n && n <= 0xD) || n == 0x20 || n == 0x85 || n == 0xA0 || n == 0x1680 || (0x2000 <= n
        && n <= 0x200A) || n == 0x2028 || n == 0x2029 || n == 0x202F || n == 0x205F || n == 0x3000
}

/// The text without its leading white space.
pub open spec fn without_leading_white(s: Seq<char>) -> Seq<char>
    decreases s.len(),
{
    if s.len() > 0 && is_white(s[0]) {
        without_leading_white(s.drop_first())
    } else {
        s
    }
}

/// The text without its trailing white space.
pub open spec fn without_trailing_white(s: Seq<char>) -> Seq<char>
    decreases s.len(),
{
    if s.len() > 0 && is_white(s.last()) {
        without_trailing_white(s.drop_last())
    } else {
        s
    }
}

/// The text without the white space around it.
pub open spec fn trimmed(s: Seq<char>) -> Seq<char> {
    without_trailing_white(without_leading_white(s))
}

fn leading_white(chars: &Vec<char>) -> (from: usize)
    ensures
        from <= chars@.len(),
        without_leading_white(chars@) == chars@.skip(from as int),
{
    let mut from: usize = 0;
    assert(chars@.skip(0) =~= chars@);
    while from < chars.len() && white(chars[from])
        invariant
            from <= chars@.len(),
            without_leading_white(chars@) == without_leading_white(chars@.skip(from as int)),
        decreases chars@.len() - from,
    {
        assert(chars@.skip(from as int).drop_first() =~= chars@.skip(from as int + 1));
        from = from + 1;
    }
    from
}

/// The text without the white space around it.
pub fn trim(s: &str) -> (out: String)
    ensures
        out@ == trimmed(s@),
{
    let chars = chars_of(s);
    let from: usize = leading_white(&chars);
    let ghost front = s@.skip(from as int);
    let mut to: usize = chars.len();
    assert(front =~= s@.subrange(from as int, to as int));
    while from < to && white(chars[to - 1])
        invariant
            chars@ == s@,
            from <= to <= chars@.len(),
            without_trailing_white(front) == without_trailing_white(
                s@.subrange(from as int, to as int),
            ),
        decreases to,
    {
        assert(s@.subrange(from as int, to as int).drop_last() =~= s@.subrange(
            from as int,
            to as int - 1,
        ));
        to = to - 1;
    }
    text_of(&chars, from, to)
}

/// Whether the text holds nothing but white space.
pub fn is_blank(s: &str) -> (r: bool)
    ensures
        r == (trimmed(s@).len() == 0),
{
    trim(s).as_str().is_empty()
}

/// Whether the text begins with `prefix`.
pub fn starts_with(s: &str, prefix: &str) -> (r: bool)
    ensures
        r == prefix@.is_prefix_of(s@),
{
    let whole = chars_of(s);
    let part = chars_of(prefix);
    matches_at(&whole, 0, &part)
}

/// `part` stands in `whole` at the position `at`.
pub open spec fn stands_at(whole: Seq<char>, at: int, part: Seq<char>) -> bool {
    0 <= at && at + part.len() <= whole.len() && whole.subrange(at, at + part.len() as int) == part
}

/// `part` stands somewhere in `whole`.
pub open spec fn occurs_in(part: Seq<char>, whole: Seq<char>) -> bool {
    exists|at: int| stands_at(whole, at, part)
}

fn matches_at(whole: &Vec<char>, at: usize, part: &Vec<char>) -> (r: bool)
    requires
        at <= whole@.len(),
    ensures
        r == stands_at(whole@, at as int, part@),
        at == 0 ==> r == part@.is_prefix_of(whole@),
{
    let length: usize = whole.len();
    if part.len() > length - at {
        return false;
    }
    let mut i: usize = 0;
    while i < part.len()
        invariant
            i <= part@.len(),
            length == whole@.len(),
            at + part@.len() <= length,
            forall|j: int| 0 <= j < i ==> whole@[at + j] == part@[j],
        decreases part@.len() - i,
    {
        if whole[at + i] != part[i] {
            assert(whole@.subrange(at as int, at + part@.len() as int)[i as int] != part@[i as int]);
            return false;
        }
        i = i + 1;
    }
    assert(whole@.subrange(at as int, at + part@.len() as int) =~= part@);
    true
}

/// Whether the first `end` characters of `whole` end with `part`.
pub fn ends_with(whole: &Vec<char>, end: usize, part: &Vec<char>) -> (r: bool)
    requires
        end <= whole@.len(),
    ensures
        r == part@.is_suffix_of(whole@.take(end as int)),
{
    if part.len() > end {
        return false;
    }
    let start: usize = end - part.len();
    assert(whole@.take(end as int).subrange(start as int, end as int) =~= whole@.subrange(
        start as int,
        end as int,
    ));
    matches_at(whole, start, part)
}

/// Whether `part` stands somewhere in `whole`.
pub fn contains_text(whole: &str, part: &str) -> (r: bool)
    ensures
        r == occurs_in(part@, whole@),
{
    let long = chars_of(whole);
    let short = chars_of(part);
    let mut at: usize = 0;
    while at < long.len()
        invariant
            long@ == whole@,
            short@ == part@,
            at <= long@.len(),
            forall|j: int| 0 <= j < at ==> !stands_at(whole@, j, part@),
        decreases long@.len() - at,
    {
        if matches_at(&long, at, &short) {
            return true;
        }
        at = at + 1;
    }
    matches_at(&long, at, &short)
}

/// The position of the first `c`, or the length where there is none.
pub open spec fn first_at(s: Seq<char>, c: char) -> int
    decreases s.len(),
{
    if s.len() == 0 || s[0] == c {
        0
    } else {
        1 + first_at(s.drop_first(), c)
    }
}

/// `first_at` finds the first occurrence, and the length only where there is none.
pub proof fn lemma_first_at(s: Seq<char>, c: char)
    ensures
        0 <= first_at(s, c) <= s.len(),
        forall|i: int| 0 <= i < first_at(s, c) ==> s[i] != c,
        first_at(s, c) < s.len() ==> s[first_at(s, c)] == c,
    decreases s.len(),
{
    if s.len() > 0 && s[0] != c {
        lemma_first_at(s.drop_first(), c);
        assert forall|i: int| 0 <= i < first_at(s, c) implies s[i] != c by {
            if i > 0 {
                assert(s[i] == s.drop_first()[i - 1]);
            }
        }
    }
}

/// The only position with these properties is `first_at`.
pub proof fn lemma_first_at_unique(s: Seq<char>, c: char, at: int)
    requires
        0 <= at <= s.len(),
        forall|i: int| 0 <= i < at ==> s[i] != c,
        at < s.len() ==> s[at] == c,
    ensures
        at == first_at(s, c),
{
    lemma_first_at(s, c);
}

fn find_from(chars: &Vec<char>, from: usize, c: char) -> (at: usize)
    requires
        from <= chars@.len(),
    ensures
        from <= at <= chars@.len(),
        at - from == first_at(chars@.skip(from as int), c),
{
    let mut at: usize = from;
    while at < chars.len() && chars[at] != c
        invariant
            from <= at <= chars@.len(),
            forall|j: int| from <= j < at ==> chars@[j] != c,
        decreases chars@.len() - at,
    {
        at = at + 1;
    }
    proof {
        let rest = chars@.skip(from as int);
        assert forall|i: int| 0 <= i < at - from implies rest[i] != c by {
            assert(rest[i] == chars@[from + i]);
        }
        lemma_first_at_unique(rest, c, at - from);
    }
    at
}

/// The text before the first `c` and the text after it, where there is a `c`.
pub open spec fn cut(s: Seq<char>, c: char) -> Option<(Seq<char>, Seq<char>)> {
    let at = first_at(s, c);
    if at < s.len() {
        Some((s.take(at), s.skip(at + 1)))
    } else {
        None
    }
}

/// Splits the text at the first `c`.
pub fn split_once(s: &str, c: char) -> (out: Option<(String, String)>)
    ensures
        match out {
            Some(halves) => cut(s@, c) == Some((halves.0@, halves.1@)),
            None => cut(s@, c) is None,
        },
{
    let chars = chars_of(s);
    let at: usize = find_from(&chars, 0, c);
    assert(s@.skip(0) =~= s@);
    if at < chars.len() {
        let before = text_of(&chars, 0, at);
        let after = text_of(&chars, at + 1, chars.len());
        assert(s@.take(at as int) =~= s@.subrange(0, at as int));
        assert(s@.skip(at + 1) =~= s@.subrange(at + 1, s@.len() as int));
        Some((before, after))
    } else {
        None
    }
}

/// The stretches of text between the occurrences of `c`.
pub open spec fn pieces(s: Seq<char>, c: char) -> Seq<Seq<char>>
    decreases s.len(),
{
    let at = first_at(s, c);
    if 0 <= at < s.len() {
        seq![s.take(at)] + pieces(s.skip(at + 1), c)
    } else {
        seq![s]
    }
}

/// The stretches of text between the occurrences of `c`.
pub fn split_all(s: &str, c: char) -> (out: Vec<String>)
    ensures
        texts(out@) == pieces(s@, c),
{
    let chars = chars_of(s);
    let mut out: Vec<String> = Vec::new();
    let mut from: usize = 0;
    assert(s@.skip(0) =~= s@);
    assert(texts(out@) + pieces(s@, c) =~= pieces(s@, c));
    loop
        invariant
            chars@ == s@,
            from <= chars@.len(),
            texts(out@) + pieces(s@.skip(from as int), c) == pieces(s@, c),
        decreases chars@.len() - from,
    {
        let at: usize = find_from(&chars, from, c);
        let piece = text_of(&chars, from, at);
        let ghost before = texts(out@);
        let ghost rest = s@.skip(from as int);
        out.push(piece);
        assert(texts(out@) =~= before.push(piece@));
        if at == chars.len() {
            assert(piece@ =~= rest);
            assert(texts(out@) =~= before + seq![rest]);
            return out;
        }
        assert(piece@ =~= rest.take(at - from));
        assert(rest.skip(at - from + 1) =~= s@.skip(at + 1));
        assert(texts(out@) + pieces(s@.skip(at + 1), c) =~= before + (seq![piece@] + pieces(
            s@.skip(at + 1),
            c,
        )));
        from = at + 1;
    }
}

/// Each text by its characters.
pub open spec fn texts(list: Seq<String>) -> Seq<Seq<char>> {
    list.map_values(|t: String| t@)
}

/// The texts one after the other, with `sep` between neighbours.
pub open spec fn joined(list: Seq<Seq<char>>, sep: Seq<char>) -> Seq<char>
    decreases list.len(),
{
    if list.len() == 0 {
        Seq::empty()
    } else if list.len() == 1 {
        list[0]
    } else {
        joined(list.drop_last(), sep) + sep + list.last()
    }
}

/// The texts one after the other, with `sep` between neighbours.
pub fn join(list: &Vec<String>, sep: &str) -> (out: String)
    ensures
        out@ == joined(texts(list@), sep@),
{
    let ghost all = texts(list@);
    let mut out = String::new();
    let mut i: usize = 0;
    assert(all.take(0) =~= Seq::empty());
    while i < list.len()
        invariant
            all == texts(list@),
            i <= list@.len(),
            out@ == joined(all.take(i as int), sep@),
        decreases list@.len() - i,
    {
        proof {
            let grown = all.take(i as int + 1);
            assert(grown.drop_last() =~= all.take(i as int));
            assert(grown.last() == list@[i as int]@);
            if i == 0 {
                assert(grown =~= seq![list@[0]@]);
            }
        }
        if i > 0 {
            out.append(sep);
        }
        out.append(list[i].as_str());
        if i == 0 {
            assert(out@ =~= list@[0]@);
        }
        i = i + 1;
    }
    assert(all.take(list@.len() as int) =~= all);
    out
}

/// The character of a decimal digit.
pub open spec fn digit(d: nat) -> char
    recommends
        d < 10,
{
    (('0' as u32) + d) as char
}

/// The decimal numeral of a number, without leading zeros.
pub open spec fn decimal(n: nat) -> Seq<char>
    decreases n,
{
    if n < 10 {
        seq![digit(n)]
    } else {
        decimal(n / 10).push(digit(n % 10))
    }
}

fn digit_char(d: u64) -> (c: char)
    requires
        d < 10,
    ensures
        c == digit(d as nat),
{
    if d == 0 {
        '0'
    } else if d == 1 {
        '1'
    } else if d == 2 {
        '2'
    } else if d == 3 {
        '3'
    } else if d == 4 {
        '4'
    } else if d == 5 {
        '5'
    } else if d == 6 {
        '6'
    } else if d == 7 {
        '7'
    } else if d == 8 {
        '8'
    } else {
        '9'
    }
}

/// The decimal numeral of a number.
pub fn number(n: u64) -> (out: String)
    ensures
        out@ == decimal(n as nat),
    decreases n,
{
    if n < 10 {
        let mut out = String::new();
        out.push(digit_char(n));
        assert(out@ =~= seq![digit(n as nat)]);
        out
    } else {
        let mut out = number(n / 10);
        out.push(digit_char(n % 10));
        out
    }
}

/// `n` times the character `c`.
pub open spec fn repeated(c: char, n: nat) -> Seq<char> {
    Seq::new(n, |i: int| c)
}

/// `n` times the character `c`.
pub fn repeat(c: char, n: usize) -> (out: String)
    ensures
        out@ == repeated(c, n as nat),
{
    let mut out = String::new();
    let mut i: usize = 0;
    while i < n
        invariant
            i <= n,
            out@ =~= repeated(c, i as nat),
        decreases n - i,
    {
        out.push(c);
        i = i + 1;
    }
    out
}

/// The text with as many spaces as bring it to `width` characters; a longer text as it is.
pub open spec fn fill(s: Seq<char>, width: nat) -> Seq<char> {
    repeated(' ', if s.len() < width { (width - s.len()) as nat } else { 0 })
}

fn fill_text(s: &str, width: usize) -> (out: String)
    ensures
        out@ == fill(s@, width as nat),
{
    let len: usize = s.unicode_len();
    if len < width {
        repeat(' ', width - len)
    } else {
        repeat(' ', 0)
    }
}

/// The text moved to the right edge of a field of `width` characters.
pub open spec fn right_aligned(s: Seq<char>, width: nat) -> Seq<char> {
    fill(s, width) + s
}

/// The text at the left edge of a field of `width` characters.
pub open spec fn left_aligned(s: Seq<char>, width: nat) -> Seq<char> {
    s + fill(s, width)
}

/// The text moved to the right edge of a field of `width` characters.
pub fn align_right(s: &str, width: usize) -> (out: String)
    ensures
        out@ == right_aligned(s@, width as nat),
{
    let mut out = fill_text(s, width);
    out.append(s);
    out
}

/// The text at the left edge of a field of `width` characters.
pub fn align_left(s: &str, width: usize) -> (out: String)
    ensures
        out@ == left_aligned(s@, width as nat),
{
    let mut out = String::new();
    out.append(s);
    let pad = fill_text(s, width);
    out.append(pad.as_str());
    assert(out@ =~= left_aligned(s@, width as nat));
    out
}

/// The two texts, one after the other.
pub fn concat2(a: &str, b: &str) -> (out: String)
    ensures
        out@ == a@ + b@,
{
    let mut out = String::new();
    out.append(a);
    assert(out@ =~= a@);
    out.append(b);
    out
}

/// The three texts, one after the other.
pub fn concat3(a: &str, b: &str, c: &str) -> (out: String)
    ensures
        out@ == a@ + b@ + c@,
{
    let mut out = concat2(a, b);
    out.append(c);
    out
}

/// The number of bytes of a text.
pub open spec fn byte_len(s: Seq<char>) -> nat {
    encode_utf8(s).len()
}

/// The number of bytes of a character.
pub open spec fn char_bytes(c: char) -> nat {
    encode_scalar(c as u32).len()
}

/// The number of bytes of a text.
pub fn byte_length(s: &str) -> (n: usize)
    ensures
        n == byte_len(s@),
{
    s.as_bytes().len()
}

/// A text has at least one byte for each character.
pub proof fn lemma_byte_len(s: Seq<char>)
    ensures
        byte_len(s) >= s.len(),
    decreases s.len(),
{
    if s.len() > 0 {
        lemma_byte_len(s.drop_first());
        lemma_char_bytes(s[0]);
    }
}

/// How many bytes a character takes.
pub proof fn lemma_char_bytes(c: char)
    ensures
        char_bytes(c) == (if (c as u32) < 0x80 {
            1nat
        } else if (c as u32) < 0x800 {
            2nat
        } else if (c as u32) < 0x10000 {
            3nat
        } else {
            4nat
        }),
{
    char_is_scalar(c);
}

fn bytes_of_char(c: char) -> (n: usize)
    ensures
        n == char_bytes(c),
        1 <= n <= 4,
{
    proof {
        lemma_char_bytes(c);
    }
    let code: u32 = c as u32;
    if code < 0x80 {
        1
    } else if code < 0x800 {
        2
    } else if code < 0x10000 {
        3
    } else {
        4
    }
}

/// The position of the character that starts `at` bytes into the text, or the length at the
/// very end; nothing where `at` lies inside a character or behind the end.
pub open spec fn char_at_byte(s: Seq<char>, at: int) -> Option<int>
    decreases s.len(),
{
    if at == 0 {
        Some(0)
    } else if s.len() == 0 || at < char_bytes(s[0]) {
        None
    } else {
        match char_at_byte(s.drop_first(), at - char_bytes(s[0])) {
            Some(k) => Some(k + 1),
            None => None,
        }
    }
}

fn position_of_byte(chars: &Vec<char>, at: usize) -> (out: Option<usize>)
    ensures
        match out {
            Some(k) => char_at_byte(chars@, at as int) == Some(k as int) && k <= chars@.len(),
            None => char_at_byte(chars@, at as int) is None,
        },
{
    let mut i: usize = 0;
    let mut left: usize = at;
    assert(chars@.skip(0) =~= chars@);
    while i < chars.len()
        invariant
            i <= chars@.len(),
            char_at_byte(chars@, at as int) == (match char_at_byte(
                chars@.skip(i as int),
                left as int,
            ) {
                Some(k) => Some(k + i),
                None => None::<int>,
            }),
        decreases chars@.len() - i,
    {
        if left == 0 {
            return Some(i);
        }
        let size: usize = bytes_of_char(chars[i]);
        if left < size {
            return None;
        }
        assert(chars@.skip(i as int).drop_first() =~= chars@.skip(i + 1));
        left = left - size;
        i = i + 1;
    }
    if left == 0 {
        Some(i)
    } else {
        None
    }
}

/// The text from one byte position to another, where both lie between characters.
pub open spec fn byte_slice(s: Seq<char>, from: int, to: int) -> Option<Seq<char>> {
    match (char_at_byte(s, from), char_at_byte(s, to)) {
        (Some(a), Some(b)) => if a <= b {
            Some(s.subrange(a, b))
        } else {
            None
        },
        _ => None,
    }
}

/// The text from one byte position to another, where both lie between characters.
pub fn slice_bytes(s: &str, from: usize, to: usize) -> (out: Option<String>)
    ensures
        match out {
            Some(part) => byte_slice(s@, from as int, to as int) == Some(part@),
            None => byte_slice(s@, from as int, to as int) is None,
        },
{
    let chars = chars_of(s);
    match (position_of_byte(&chars, from), position_of_byte(&chars, to)) {
        (Some(a), Some(b)) => if a <= b {
            Some(text_of(&chars, a, b))
        } else {
            None
        },
        _ => None,
    }
}

/// The text without its leading white space.
pub fn trim_start(s: &str) -> (out: String)
    ensures
        out@ == without_leading_white(s@),
{
    let chars = chars_of(s);
    let from: usize = leading_white(&chars);
    let out = text_of(&chars, from, chars.len());
    assert(out@ =~= s@.skip(from as int));
    out
}

} // verus!
