//! Byte-wise lexicographic order on strings.

use vstd::prelude::*;
use vstd::utf8::encode_utf8;

verus! {

/// The outcome of a three-way comparison.
#[derive(Clone, Copy, Debug, PartialEq, Eq, Structural)]
pub enum Order {
    Less,
    Equal,
    Greater,
}

/// `a` and `b` agree before position `k`, and at `k` either `a` ends while
/// `b` goes on, or `a` holds the smaller byte.
pub open spec fn splits_below(a: Seq<u8>, b: Seq<u8>, k: int) -> bool {
    &&& 0 <= k <= a.len()
    &&& k < b.len()
    &&& forall|j: int| 0 <= j < k ==> a[j] == b[j]
    &&& (k < a.len() ==> a[k] < b[k])
}

/// Strict lexicographic order on byte sequences.
pub open spec fn bytes_lt(a: Seq<u8>, b: Seq<u8>) -> bool {
    exists|k: int| splits_below(a, b, k)
}

/// Strict order on strings: lexicographic on their UTF-8 encodings.
pub open spec fn str_lt(a: Seq<char>, b: Seq<char>) -> bool {
    bytes_lt(encode_utf8(a), encode_utf8(b))
}

/// No byte sequence is below itself.
pub proof fn lemma_bytes_lt_irreflexive(a: Seq<u8>)
    ensures
        !bytes_lt(a, a),
{
}

/// The byte order is transitive.
pub proof fn lemma_bytes_lt_transitive(a: Seq<u8>, b: Seq<u8>, c: Seq<u8>)
    requires
        bytes_lt(a, b),
        bytes_lt(b, c),
    ensures
        bytes_lt(a, c),
{
    let k1 = choose|k: int| splits_below(a, b, k);
    let k2 = choose|k: int| splits_below(b, c, k);
    let k = if k1 <= k2 { k1 } else { k2 };
    assert(splits_below(a, c, k));
}

/// Two byte sequences are never below each other both ways.
pub proof fn lemma_bytes_lt_asymmetric(a: Seq<u8>, b: Seq<u8>)
    requires
        bytes_lt(a, b),
    ensures
        !bytes_lt(b, a),
{
    if bytes_lt(b, a) {
        lemma_bytes_lt_transitive(a, b, a);
        lemma_bytes_lt_irreflexive(a);
    }
}

proof fn lemma_bytes_lt_total_from(a: Seq<u8>, b: Seq<u8>, k: int)
    requires
        0 <= k <= a.len(),
        k <= b.len(),
        forall|j: int| 0 <= j < k ==> a[j] == b[j],
    ensures
        a == b || bytes_lt(a, b) || bytes_lt(b, a),
    decreases a.len() - k,
{
    if k == a.len() {
        if k == b.len() {
            assert(a =~= b);
        } else {
            assert(splits_below(a, b, k));
        }
    } else if k == b.len() {
        assert(splits_below(b, a, k));
    } else if a[k] < b[k] {
        assert(splits_below(a, b, k));
    } else if b[k] < a[k] {
        assert(splits_below(b, a, k));
    } else {
        lemma_bytes_lt_total_from(a, b, k + 1);
    }
}

/// Of two different byte sequences one is below the other.
pub proof fn lemma_bytes_lt_total(a: Seq<u8>, b: Seq<u8>)
    ensures
        a == b || bytes_lt(a, b) || bytes_lt(b, a),
{
    lemma_bytes_lt_total_from(a, b, 0);
}

/// Strings with the same encoding are the same string.
pub proof fn lemma_encoding_injective(a: Seq<char>, b: Seq<char>)
    requires
        encode_utf8(a) == encode_utf8(b),
    ensures
        a == b,
{
    vstd::utf8::encode_utf8_decode_utf8(a);
    vstd::utf8::encode_utf8_decode_utf8(b);
}

/// The string order is irreflexive.
pub proof fn lemma_str_lt_irreflexive(a: Seq<char>)
    ensures
        !str_lt(a, a),
{
    lemma_bytes_lt_irreflexive(encode_utf8(a));
}

/// The string order is transitive.
pub proof fn lemma_str_lt_transitive(a: Seq<char>, b: Seq<char>, c: Seq<char>)
    requires
        str_lt(a, b),
        str_lt(b, c),
    ensures
        str_lt(a, c),
{
    lemma_bytes_lt_transitive(encode_utf8(a), encode_utf8(b), encode_utf8(c));
}

/// Of two different strings one is below the other.
pub proof fn lemma_str_lt_total(a: Seq<char>, b: Seq<char>)
    ensures
        a == b || str_lt(a, b) || str_lt(b, a),
{
    lemma_bytes_lt_total(encode_utf8(a), encode_utf8(b));
    if encode_utf8(a) == encode_utf8(b) {
        lemma_encoding_injective(a, b);
    }
}

/// Compares two byte slices lexicographically.
pub fn compare_bytes(a: &[u8], b: &[u8]) -> (r: Order)
    ensures
        r == Order::Less <==> bytes_lt(a@, b@),
        r == Order::Equal <==> a@ == b@,
        r == Order::Greater <==> bytes_lt(b@, a@),
{
    let mut i: usize = 0;
    while i < a.len() && i < b.len()
        invariant
            i <= a.len(),
            i <= b.len(),
            forall|j: int| 0 <= j < i ==> a@[j] == b@[j],
        decreases a.len() - i,
    {
        if a[i] < b[i] {
            proof {
                assert(splits_below(a@, b@, i as int));
                lemma_bytes_lt_asymmetric(a@, b@);
                lemma_bytes_lt_irreflexive(a@);
            }
            return Order::Less;
        }
        if b[i] < a[i] {
            proof {
                assert(splits_below(b@, a@, i as int));
                lemma_bytes_lt_asymmetric(b@, a@);
                lemma_bytes_lt_irreflexive(a@);
            }
            return Order::Greater;
        }
        i += 1;
    }
    if a.len() < b.len() {
        proof {
            assert(splits_below(a@, b@, i as int));
            lemma_bytes_lt_asymmetric(a@, b@);
            lemma_bytes_lt_irreflexive(a@);
        }
        Order::Less
    } else if b.len() < a.len() {
        proof {
            assert(splits_below(b@, a@, i as int));
            lemma_bytes_lt_asymmetric(b@, a@);
            lemma_bytes_lt_irreflexive(a@);
        }
        Order::Greater
    } else {
        proof {
            assert(a@ =~= b@);
            lemma_bytes_lt_irreflexive(a@);
        }
        Order::Equal
    }
}

/// Compares two strings by their UTF-8 bytes.
pub fn compare_str(a: &str, b: &str) -> (r: Order)
    ensures
        r == Order::Less <==> str_lt(a@, b@),
        r == Order::Equal <==> a@ == b@,
        r == Order::Greater <==> str_lt(b@, a@),
{
    let r = compare_bytes(a.as_bytes(), b.as_bytes());
    proof {
        if encode_utf8(a@) == encode_utf8(b@) {
            lemma_encoding_injective(a@, b@);
        }
    }
    r
}

} // verus!
