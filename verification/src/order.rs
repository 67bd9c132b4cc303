//! The order of text keys. Rust orders `String`s by their UTF-8 bytes,
//! lexicographically; this module states that order and decides it.

use vstd::prelude::*;
use vstd::utf8::*;

verus! {

/// `a` and `b` agree on their first `k` elements.
pub open spec fn common_prefix(a: Seq<u8>, b: Seq<u8>, k: int) -> bool {
    &&& 0 <= k <= a.len()
    &&& k <= b.len()
    &&& forall|i: int| 0 <= i < k ==> a[i] == b[i]
}

/// `a` comes strictly before `b` once `k` elements agree.
pub open spec fn lt_at(a: Seq<u8>, b: Seq<u8>, k: int) -> bool {
    &&& common_prefix(a, b, k)
    &&& k < b.len()
    &&& (k == a.len() || a[k] < b[k])
}

/// Lexicographic strict order on byte sequences.
pub open spec fn bytes_lt(a: Seq<u8>, b: Seq<u8>) -> bool {
    exists|k: int| lt_at(a, b, k)
}

/// The key order on texts: the lexicographic order of their UTF-8 encodings,
/// which is how `String` implements `Ord`.
pub open spec fn key_lt(a: Seq<char>, b: Seq<char>) -> bool {
    bytes_lt(encode_utf8(a), encode_utf8(b))
}

/// The three outcomes of comparing two keys.
#[derive(Clone, Copy, Debug, PartialEq, Eq)]
pub enum KeyOrder {
    Less,
    Equal,
    Greater,
}

pub proof fn lemma_bytes_lt_irreflexive(a: Seq<u8>)
    ensures
        !bytes_lt(a, a),
{
}

pub proof fn lemma_bytes_lt_transitive(a: Seq<u8>, b: Seq<u8>, c: Seq<u8>)
    requires
        bytes_lt(a, b),
        bytes_lt(b, c),
    ensures
        bytes_lt(a, c),
{
    let k1 = choose|k: int| lt_at(a, b, k);
    let k2 = choose|k: int| lt_at(b, c, k);
    if k1 < k2 {
        assert(lt_at(a, c, k1));
    } else if k2 < k1 {
        assert(lt_at(a, c, k2));
    } else {
        assert(lt_at(a, c, k1));
    }
}

pub proof fn lemma_bytes_lt_asymmetric(a: Seq<u8>, b: Seq<u8>)
    requires
        bytes_lt(a, b),
    ensures
        !bytes_lt(b, a),
{
    if bytes_lt(b, a) {
        lemma_bytes_lt_transitive(a, b, a);
    }
}

/// The first position at which two byte sequences differ decides their order.
proof fn lemma_first_difference(a: Seq<u8>, b: Seq<u8>, k: int)
    requires
        common_prefix(a, b, k),
        k == a.len() || k == b.len() || a[k] != b[k],
    ensures
        bytes_lt(a, b) <==> lt_at(a, b, k),
        bytes_lt(b, a) <==> lt_at(b, a, k),
        !bytes_lt(a, b) && !bytes_lt(b, a) ==> a == b,
{
    if bytes_lt(a, b) {
        let j = choose|j: int| lt_at(a, b, j);
        if j < k {
        } else if j > k {
            assert(a[k] == b[k]);
        }
    }
    if bytes_lt(b, a) {
        let j = choose|j: int| lt_at(b, a, j);
        if j < k {
        } else if j > k {
            assert(a[k] == b[k]);
        }
    }
    if !bytes_lt(a, b) && !bytes_lt(b, a) {
        if k < a.len() && k < b.len() {
            if a[k] < b[k] {
                assert(lt_at(a, b, k));
            } else {
                assert(lt_at(b, a, k));
            }
        } else if k < b.len() {
            assert(lt_at(a, b, k));
        } else if k < a.len() {
            assert(lt_at(b, a, k));
        } else {
            assert(a =~= b);
        }
    }
}

/// Extends a common prefix up to the first position where the sequences differ
/// or one of them ends.
proof fn lemma_difference_from(a: Seq<u8>, b: Seq<u8>, k: int) -> (j: int)
    requires
        common_prefix(a, b, k),
    ensures
        common_prefix(a, b, j),
        j == a.len() || j == b.len() || a[j] != b[j],
    decreases a.len() - k,
{
    if k == a.len() || k == b.len() || a[k] != b[k] {
        k
    } else {
        lemma_difference_from(a, b, k + 1)
    }
}

/// Any two distinct byte sequences are ordered one way or the other.
pub proof fn lemma_bytes_lt_total(a: Seq<u8>, b: Seq<u8>)
    ensures
        a == b || bytes_lt(a, b) || bytes_lt(b, a),
{
    let k = lemma_difference_from(a, b, 0);
    lemma_first_difference(a, b, k);
}

/// Texts with the same UTF-8 encoding are the same text.
pub proof fn lemma_encode_injective(a: Seq<char>, b: Seq<char>)
    requires
        encode_utf8(a) == encode_utf8(b),
    ensures
        a == b,
{
    encode_utf8_decode_utf8(a);
    encode_utf8_decode_utf8(b);
}

pub proof fn lemma_key_lt_irreflexive(a: Seq<char>)
    ensures
        !key_lt(a, a),
{
}

pub proof fn lemma_key_lt_transitive(a: Seq<char>, b: Seq<char>, c: Seq<char>)
    requires
        key_lt(a, b),
        key_lt(b, c),
    ensures
        key_lt(a, c),
{
    lemma_bytes_lt_transitive(encode_utf8(a), encode_utf8(b), encode_utf8(c));
}

pub proof fn lemma_key_lt_asymmetric(a: Seq<char>, b: Seq<char>)
    requires
        key_lt(a, b),
    ensures
        !key_lt(b, a),
{
    lemma_bytes_lt_asymmetric(encode_utf8(a), encode_utf8(b));
}

pub proof fn lemma_key_lt_total(a: Seq<char>, b: Seq<char>)
    ensures
        a == b || key_lt(a, b) || key_lt(b, a),
{
    lemma_bytes_lt_total(encode_utf8(a), encode_utf8(b));
    if encode_utf8(a) == encode_utf8(b) {
        lemma_encode_injective(a, b);
    }
}

/// The byte order is lexicographic: a proper prefix comes strictly before
/// every longer sequence that extends it, and after a common prefix the first
/// differing byte decides, whatever follows it.
pub proof fn law_bytes_order(a: Seq<u8>, u: Seq<u8>, p: Seq<u8>, x: u8, y: u8, s: Seq<u8>, t: Seq<u8>)
    ensures
        u.len() > 0 ==> bytes_lt(a, a + u),
        x < y ==> bytes_lt(p + seq![x] + s, p + seq![y] + t),
{
    if u.len() > 0 {
        assert(lt_at(a, a + u, a.len() as int));
    }
    if x < y {
        let l = p + seq![x] + s;
        let r = p + seq![y] + t;
        assert(l[p.len() as int] == x);
        assert(r[p.len() as int] == y);
        assert(lt_at(l, r, p.len() as int));
    }
}

/// The encoding of two texts one after the other is the encoding of the
/// first followed by that of the second.
proof fn lemma_encode_concat(a: Seq<char>, b: Seq<char>)
    ensures
        encode_utf8(a + b) == encode_utf8(a) + encode_utf8(b),
    decreases a.len(),
{
    if a.len() == 0 {
        assert(a + b =~= b);
        assert(encode_utf8(a) + encode_utf8(b) =~= encode_utf8(b));
    } else {
        lemma_encode_concat(a.drop_first(), b);
        assert((a + b).drop_first() =~= a.drop_first() + b);
        assert((a + b)[0] == a[0]);
        assert(encode_scalar(a[0] as u32) + (encode_utf8(a.drop_first()) + encode_utf8(b))
            =~= encode_utf8(a) + encode_utf8(b));
    }
}

/// A non-empty text has a non-empty encoding.
proof fn lemma_encode_nonempty(t: Seq<char>)
    requires
        t.len() > 0,
    ensures
        encode_utf8(t).len() > 0,
{
    assert(encode_scalar(t[0] as u32).len() > 0);
}

/// In key order a proper prefix comes strictly before every longer text that
/// extends it, as `String`'s `Ord` has it (`"r_1"` before `"r_10"`, `"a"`
/// before `"ab"`).
pub proof fn law_prefix_key_first(a: Seq<char>, t: Seq<char>)
    requires
        t.len() > 0,
    ensures
        key_lt(a, a + t),
        !key_lt(a + t, a),
{
    lemma_encode_concat(a, t);
    lemma_encode_nonempty(t);
    law_bytes_order(encode_utf8(a), encode_utf8(t), Seq::empty(), 0, 0, Seq::empty(), Seq::empty());
    lemma_key_lt_asymmetric(a, a + t);
}

/// Compares two byte slices lexicographically.
pub fn compare_bytes(a: &[u8], b: &[u8]) -> (o: KeyOrder)
    ensures
        o == KeyOrder::Less <==> bytes_lt(a@, b@),
        o == KeyOrder::Greater <==> bytes_lt(b@, a@),
        o == KeyOrder::Equal <==> a@ == b@,
{
    let mut k: usize = 0;
    while k < a.len() && k < b.len() && a[k] == b[k]
        invariant
            common_prefix(a@, b@, k as int),
        decreases a.len() - k,
    {
        k = k + 1;
    }
    proof {
        lemma_first_difference(a@, b@, k as int);
        lemma_bytes_lt_irreflexive(a@);
        if bytes_lt(a@, b@) {
            lemma_bytes_lt_asymmetric(a@, b@);
        }
    }
    if k < a.len() && k < b.len() {
        if a[k] < b[k] {
            KeyOrder::Less
        } else {
            KeyOrder::Greater
        }
    } else if k < b.len() {
        KeyOrder::Less
    } else if k < a.len() {
        KeyOrder::Greater
    } else {
        KeyOrder::Equal
    }
}

/// Compares two texts in key order.
pub fn compare_keys(a: &str, b: &str) -> (o: KeyOrder)
    ensures
        o == KeyOrder::Less <==> key_lt(a@, b@),
        o == KeyOrder::Greater <==> key_lt(b@, a@),
        o == KeyOrder::Equal <==> a@ == b@,
{
    let o = compare_bytes(a.as_bytes(), b.as_bytes());
    proof {
        if encode_utf8(a@) == encode_utf8(b@) {
            lemma_encode_injective(a@, b@);
        }
    }
    o
}

/// Whether `a` comes strictly before `b` in key order.
pub fn key_precedes(a: &str, b: &str) -> (r: bool)
    ensures
        r == key_lt(a@, b@),
{
    match compare_keys(a, b) {
        KeyOrder::Less => true,
        _ => false,
    }
}

} // verus!
