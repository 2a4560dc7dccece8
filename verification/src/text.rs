//! The order of text: lexicographic by UTF-8 bytes, as for `str`.

use vstd::prelude::*;
use vstd::utf8::encode_utf8;

verus! {

/// How one value stands to another in a total order.
#[derive(Clone, Copy, Debug, PartialEq, Eq, Structural)]
pub enum Relation {
    /// The first value comes before the second.
    Before,
    /// The two values are equal.
    Same,
    /// The first value comes after the second.
    After,
}

/// `a` and `b` agree before position `i`, and at `i` either `a` has ended or
/// its byte is the smaller one.
pub open spec fn bytes_before_at(a: Seq<u8>, b: Seq<u8>, i: int) -> bool {
    &&& 0 <= i <= a.len()
    &&& i < b.len()
    &&& forall|j: int| 0 <= j < i ==> a[j] == b[j]
    &&& i < a.len() ==> a[i] < b[i]
}

/// `a` comes strictly before `b` in the lexicographic order of byte strings.
pub open spec fn bytes_before(a: Seq<u8>, b: Seq<u8>) -> bool {
    exists|i: int| bytes_before_at(a, b, i)
}

/// `a` comes strictly before `b` in the lexicographic order of their UTF-8
/// encodings.
pub open spec fn text_before(a: Seq<char>, b: Seq<char>) -> bool {
    bytes_before(encode_utf8(a), encode_utf8(b))
}

/// As [`text_before`], with an absent text before every present one.
pub open spec fn optional_text_before(a: Option<Seq<char>>, b: Option<Seq<char>>) -> bool {
    match (a, b) {
        (None, Some(_)) => true,
        (Some(x), Some(y)) => text_before(x, y),
        _ => false,
    }
}

/// The first position at or after `i` where `a` and `b` part, or the end of the
/// shorter one.
spec fn first_difference(a: Seq<u8>, b: Seq<u8>, i: int) -> int
    decreases a.len() - i,
{
    if 0 <= i < a.len() && i < b.len() && a[i] == b[i] {
        first_difference(a, b, i + 1)
    } else {
        i
    }
}

proof fn lemma_first_difference(a: Seq<u8>, b: Seq<u8>, i: int)
    requires
        0 <= i <= a.len(),
        i <= b.len(),
        forall|j: int| 0 <= j < i ==> a[j] == b[j],
    ensures
        ({
            let d = first_difference(a, b, i);
            &&& i <= d <= a.len()
            &&& d <= b.len()
            &&& forall|j: int| 0 <= j < d ==> a[j] == b[j]
            &&& d < a.len() && d < b.len() ==> a[d] != b[d]
        }),
    decreases a.len() - i,
{
    if i < a.len() && i < b.len() && a[i] == b[i] {
        lemma_first_difference(a, b, i + 1);
    }
}

/// Two texts with the same encoding are equal.
pub proof fn lemma_encoding_determines_text(a: Seq<char>, b: Seq<char>)
    requires
        encode_utf8(a) == encode_utf8(b),
    ensures
        a == b,
{
    vstd::utf8::encode_utf8_decode_utf8(a);
    vstd::utf8::encode_utf8_decode_utf8(b);
}

/// No text comes before itself, and no two texts come before each other.
pub proof fn lemma_text_order_asymmetric(a: Seq<char>, b: Seq<char>)
    requires
        text_before(a, b),
    ensures
        !text_before(b, a),
        a != b,
{
    let x = encode_utf8(a);
    let y = encode_utf8(b);
    let i = choose|i: int| bytes_before_at(x, y, i);
    if bytes_before(y, x) {
        let j = choose|j: int| bytes_before_at(y, x, j);
        assert(false);
    }
}

/// The order of texts is transitive.
pub proof fn lemma_text_order_transitive(a: Seq<char>, b: Seq<char>, c: Seq<char>)
    requires
        text_before(a, b),
        text_before(b, c),
    ensures
        text_before(a, c),
{
    let x = encode_utf8(a);
    let y = encode_utf8(b);
    let z = encode_utf8(c);
    let i = choose|i: int| bytes_before_at(x, y, i);
    let j = choose|j: int| bytes_before_at(y, z, j);
    let k = if i < j { i } else { j };
    assert(bytes_before_at(x, z, k));
}

/// Of two different texts one comes before the other.
pub proof fn lemma_text_order_total(a: Seq<char>, b: Seq<char>)
    ensures
        a == b || text_before(a, b) || text_before(b, a),
{
    let x = encode_utf8(a);
    let y = encode_utf8(b);
    lemma_first_difference(x, y, 0);
    let d = first_difference(x, y, 0);
    if d < x.len() && d < y.len() {
        if x[d] < y[d] {
            assert(bytes_before_at(x, y, d));
        } else {
            assert(bytes_before_at(y, x, d));
        }
    } else if x.len() < y.len() {
        assert(bytes_before_at(x, y, d));
    } else if y.len() < x.len() {
        assert(bytes_before_at(y, x, d));
    } else {
        assert(x =~= y);
        lemma_encoding_determines_text(a, b);
    }
}

/// How `a` stands to `b` in the order of texts.
pub fn compare_text(a: &str, b: &str) -> (relation: Relation)
    ensures
        match relation {
            Relation::Before => text_before(a@, b@),
            Relation::Same => a@ == b@,
            Relation::After => text_before(b@, a@),
        },
{
    let x = a.as_bytes();
    let y = b.as_bytes();
    let mut i: usize = 0;
    while i < x.len() && i < y.len()
        invariant
            x@ == encode_utf8(a@),
            y@ == encode_utf8(b@),
            i <= x@.len(),
            i <= y@.len(),
            forall|j: int| 0 <= j < i ==> x@[j] == y@[j],
        decreases x@.len() - i,
    {
        if x[i] < y[i] {
            assert(bytes_before_at(x@, y@, i as int));
            return Relation::Before;
        }
        if y[i] < x[i] {
            assert(bytes_before_at(y@, x@, i as int));
            return Relation::After;
        }
        i = i + 1;
    }
    if x.len() < y.len() {
        assert(bytes_before_at(x@, y@, i as int));
        Relation::Before
    } else if y.len() < x.len() {
        assert(bytes_before_at(y@, x@, i as int));
        Relation::After
    } else {
        proof {
            assert(x@ =~= y@);
            lemma_encoding_determines_text(a@, b@);
        }
        Relation::Same
    }
}

/// Whether two texts are equal.
pub fn same_text(a: &str, b: &str) -> (same: bool)
    ensures
        same <==> a@ == b@,
{
    match compare_text(a, b) {
        Relation::Same => true,
        Relation::Before => {
            proof {
                lemma_text_order_asymmetric(a@, b@);
            }
            false
        },
        Relation::After => {
            proof {
                lemma_text_order_asymmetric(b@, a@);
            }
            false
        },
    }
}

/// How `a` stands to `b` in the order of optional texts.
pub fn compare_optional_text(a: &Option<String>, b: &Option<String>) -> (relation: Relation)
    ensures
        match relation {
            Relation::Before => optional_text_before(optional_text(*a), optional_text(*b)),
            Relation::Same => optional_text(*a) == optional_text(*b),
            Relation::After => optional_text_before(optional_text(*b), optional_text(*a)),
        },
{
    match (a, b) {
        (None, None) => Relation::Same,
        (None, Some(_)) => Relation::Before,
        (Some(_), None) => Relation::After,
        (Some(x), Some(y)) => compare_text(x.as_str(), y.as_str()),
    }
}

/// The text that an optional string holds.
pub open spec fn optional_text(s: Option<String>) -> Option<Seq<char>> {
    match s {
        Some(text) => Some(text@),
        None => None,
    }
}

/// The first byte in which two texts differ decides which comes before the other;
/// where one of them ends before any difference, that one comes first.
pub proof fn law_first_difference_decides(a: Seq<char>, b: Seq<char>, i: int)
    requires
        0 <= i <= encode_utf8(a).len(),
        i < encode_utf8(b).len(),
        forall|j: int| 0 <= j < i ==> encode_utf8(a)[j] == encode_utf8(b)[j],
        i == encode_utf8(a).len() || encode_utf8(a)[i] < encode_utf8(b)[i],
    ensures
        text_before(a, b),
        !text_before(b, a),
        !text_before(a, a),
{
    assert(bytes_before_at(encode_utf8(a), encode_utf8(b), i));
    lemma_text_order_asymmetric(a, b);
    if text_before(a, a) {
        lemma_text_order_asymmetric(a, a);
    }
}

/// A text that is absent comes before every text, and no text before it; texts
/// that are there are compared as texts.
pub proof fn law_absent_text_comes_first(a: Seq<char>, b: Seq<char>)
    ensures
        optional_text_before(None, Some(a)),
        !optional_text_before(Some(a), None),
        !optional_text_before(None, None),
        optional_text_before(Some(a), Some(b)) <==> text_before(a, b),
{
}

/// An optional string holds its text, or none.
pub proof fn law_optional_text_is_the_text(text: String)
    ensures
        optional_text(Some(text)) == Some(text@),
        optional_text(None) is None,
{
}

} // verus!
