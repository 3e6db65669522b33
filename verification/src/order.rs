//! The order of texts and of lists of texts.
//!
//! Texts are ordered as `str` is: lexicographically by their UTF-8 bytes. Keys made of several
//! texts are ordered component by component.

use vstd::prelude::*;
use vstd::utf8::*;

verus! {

/// `a` comes at or before `b` in the lexicographic order of byte strings.
pub open spec fn bytes_le(a: Seq<u8>, b: Seq<u8>) -> bool
    decreases a.len(),
{
    if a.len() == 0 {
        true
    } else if b.len() == 0 {
        false
    } else if a[0] == b[0] {
        bytes_le(a.drop_first(), b.drop_first())
    } else {
        a[0] < b[0]
    }
}

/// `a` comes at or before `b` in the order of `str`.
pub open spec fn text_le(a: Seq<char>, b: Seq<char>) -> bool {
    bytes_le(encode_utf8(a), encode_utf8(b))
}

/// `a` comes strictly before `b` in the order of `str`.
pub open spec fn text_lt(a: Seq<char>, b: Seq<char>) -> bool {
    text_le(a, b) && a != b
}

/// `a` comes at or before `b` when the components are compared one after the other.
pub open spec fn key_le(a: Seq<Seq<char>>, b: Seq<Seq<char>>) -> bool
    decreases a.len(),
{
    if a.len() == 0 {
        true
    } else if b.len() == 0 {
        false
    } else if a[0] == b[0] {
        key_le(a.drop_first(), b.drop_first())
    } else {
        text_le(a[0], b[0])
    }
}

/// `a` comes strictly before `b` when the components are compared one after the other.
pub open spec fn key_lt(a: Seq<Seq<char>>, b: Seq<Seq<char>>) -> bool {
    key_le(a, b) && a != b
}

proof fn lemma_bytes_total(a: Seq<u8>, b: Seq<u8>)
    ensures
        bytes_le(a, b) || bytes_le(b, a),
    decreases a.len(),
{
    if a.len() > 0 && b.len() > 0 && a[0] == b[0] {
        lemma_bytes_total(a.drop_first(), b.drop_first());
    }
}

proof fn lemma_bytes_antisymmetric(a: Seq<u8>, b: Seq<u8>)
    requires
        bytes_le(a, b),
        bytes_le(b, a),
    ensures
        a == b,
    decreases a.len(),
{
    if a.len() > 0 && b.len() > 0 {
        lemma_bytes_antisymmetric(a.drop_first(), b.drop_first());
        assert(a =~= seq![a[0]] + a.drop_first());
        assert(b =~= seq![b[0]] + b.drop_first());
    } else {
        assert(a =~= b);
    }
}

proof fn lemma_bytes_transitive(a: Seq<u8>, b: Seq<u8>, c: Seq<u8>)
    requires
        bytes_le(a, b),
        bytes_le(b, c),
    ensures
        bytes_le(a, c),
    decreases a.len(),
{
    if a.len() > 0 && a[0] == b[0] && b[0] == c[0] {
        lemma_bytes_transitive(a.drop_first(), b.drop_first(), c.drop_first());
    }
}

/// The order of texts is total, and only equal texts come at or before each other.
pub proof fn lemma_text_order(a: Seq<char>, b: Seq<char>)
    ensures
        text_le(a, b) || text_le(b, a),
        text_le(a, b) && text_le(b, a) ==> a == b,
        text_le(a, a),
{
    lemma_bytes_total(encode_utf8(a), encode_utf8(b));
    lemma_bytes_total(encode_utf8(a), encode_utf8(a));
    if text_le(a, b) && text_le(b, a) {
        lemma_bytes_antisymmetric(encode_utf8(a), encode_utf8(b));
        encode_utf8_decode_utf8(a);
        encode_utf8_decode_utf8(b);
    }
}

/// The order of texts is transitive.
pub proof fn lemma_text_transitive(a: Seq<char>, b: Seq<char>, c: Seq<char>)
    requires
        text_le(a, b),
        text_le(b, c),
    ensures
        text_le(a, c),
{
    lemma_bytes_transitive(encode_utf8(a), encode_utf8(b), encode_utf8(c));
}

/// The order of keys is total, and only equal keys come at or before each other.
pub proof fn lemma_key_order(a: Seq<Seq<char>>, b: Seq<Seq<char>>)
    ensures
        key_le(a, b) || key_le(b, a),
        key_le(a, b) && key_le(b, a) ==> a == b,
        key_le(a, a),
    decreases a.len(),
{
    if a.len() > 0 {
        lemma_key_order(a.drop_first(), a.drop_first());
    }
    if a.len() > 0 && b.len() > 0 {
        lemma_text_order(a[0], b[0]);
        lemma_key_order(a.drop_first(), b.drop_first());
        if key_le(a, b) && key_le(b, a) {
            assert(a =~= seq![a[0]] + a.drop_first());
            assert(b =~= seq![b[0]] + b.drop_first());
        }
    } else if key_le(a, b) && key_le(b, a) {
        assert(a =~= b);
    }
}

/// The order of keys is transitive.
pub proof fn lemma_key_transitive(a: Seq<Seq<char>>, b: Seq<Seq<char>>, c: Seq<Seq<char>>)
    requires
        key_le(a, b),
        key_le(b, c),
    ensures
        key_le(a, c),
    decreases a.len(),
{
    if a.len() > 0 {
        lemma_text_order(a[0], b[0]);
        lemma_text_order(b[0], c[0]);
        lemma_text_order(a[0], c[0]);
        if a[0] == b[0] && b[0] == c[0] {
            lemma_key_transitive(a.drop_first(), b.drop_first(), c.drop_first());
        } else {
            lemma_text_transitive(a[0], b[0], c[0]);
        }
    }
}

/// Whether `a` comes at or before `b` in the order of `str`.
pub fn text_at_or_before(a: &str, b: &str) -> (r: bool)
    ensures
        r == text_le(a@, b@),
{
    let x = a.as_bytes();
    let y = b.as_bytes();
    let mut i: usize = 0;
    assert(x@.skip(0) =~= x@);
    assert(y@.skip(0) =~= y@);
    while i < x.len() && i < y.len() && x[i] == y[i]
        invariant
            x@ == encode_utf8(a@),
            y@ == encode_utf8(b@),
            i <= x@.len(),
            i <= y@.len(),
            bytes_le(x@, y@) == bytes_le(x@.skip(i as int), y@.skip(i as int)),
        decreases x@.len() - i,
    {
        assert(x@.skip(i as int).drop_first() =~= x@.skip(i as int + 1));
        assert(y@.skip(i as int).drop_first() =~= y@.skip(i as int + 1));
        i = i + 1;
    }
    if i == x.len() {
        true
    } else if i == y.len() {
        false
    } else {
        x[i] < y[i]
    }
}

/// Whether two texts are the same.
pub fn same_text(a: &str, b: &str) -> (r: bool)
    ensures
        r == (a@ == b@),
{
    let forth = text_at_or_before(a, b);
    let back = text_at_or_before(b, a);
    proof {
        lemma_text_order(a@, b@);
    }
    forth && back
}

/// The components of a key, each by its characters.
pub open spec fn key_view(key: Seq<String>) -> Seq<Seq<char>> {
    key.map_values(|part: String| part@)
}

/// Whether `a` comes at or before `b` when the components are compared one after the other.
pub fn key_at_or_before(a: &Vec<String>, b: &Vec<String>) -> (r: bool)
    ensures
        r == key_le(key_view(a@), key_view(b@)),
{
    let ghost x = key_view(a@);
    let ghost y = key_view(b@);
    let mut i: usize = 0;
    assert(x.skip(0) =~= x);
    assert(y.skip(0) =~= y);
    while i < a.len() && i < b.len() && same_text(a[i].as_str(), b[i].as_str())
        invariant
            x == key_view(a@),
            y == key_view(b@),
            i <= x.len(),
            i <= y.len(),
            key_le(x, y) == key_le(x.skip(i as int), y.skip(i as int)),
        decreases x.len() - i,
    {
        assert(x.skip(i as int).drop_first() =~= x.skip(i as int + 1));
        assert(y.skip(i as int).drop_first() =~= y.skip(i as int + 1));
        i = i + 1;
    }
    if i == a.len() {
        true
    } else if i == b.len() {
        false
    } else {
        text_at_or_before(a[i].as_str(), b[i].as_str())
    }
}

} // verus!
