//! SHA-256 digests of byte strings and their lowercase hexadecimal form.

use vstd::prelude::*;
use sha2::{Digest as _, Sha256};

verus! {

/// A SHA-256 digest.
pub type Hash = [u8; 32];

/// The SHA-256 digest of a byte string.
pub uninterp spec fn sha256_digest(bytes: Seq<u8>) -> Seq<u8>;

/// Calls `sha2::Sha256::digest`. The contract names the result: it is the
/// SHA-256 digest of exactly the given bytes, and nothing more is claimed.
#[verifier::external_body]
pub fn sha256(bytes: &[u8]) -> (h: Hash)
    ensures
        h@ == sha256_digest(bytes@),
{
    Sha256::digest(bytes).into()
}

/// The lowercase hexadecimal digit of a value below sixteen.
pub open spec fn hex_digit(n: int) -> char {
    if n < 10 {
        (n + 48) as char
    } else {
        (n + 87) as char
    }
}

/// Two lowercase hexadecimal digits per byte, most significant first.
pub open spec fn hex_text(bytes: Seq<u8>) -> Seq<char> {
    Seq::new(
        2 * bytes.len(),
        |i: int|
            if i % 2 == 0 {
                hex_digit(bytes[i / 2] as int / 16)
            } else {
                hex_digit(bytes[i / 2] as int % 16)
            },
    )
}

/// The value of a lowercase hexadecimal digit.
pub open spec fn hex_value(c: char) -> int {
    if (c as int) <= ('9' as int) {
        c as int - ('0' as int)
    } else {
        c as int - ('a' as int) + 10
    }
}

/// The hexadecimal form has two characters per byte, each a digit `'0'..='9'`
/// or a lowercase letter `'a'..='f'`, and the two characters at `2 * i` and
/// `2 * i + 1` read back, most significant first, as byte `i`.
pub proof fn law_hex_text(bytes: Seq<u8>, i: int)
    requires
        0 <= i < bytes.len(),
    ensures
        hex_text(bytes).len() == 2 * bytes.len(),
        forall|j: int|
            0 <= j < 2 * bytes.len() ==> ('0' <= #[trigger] hex_text(bytes)[j] <= '9') || ('a'
                <= hex_text(bytes)[j] <= 'f'),
        hex_value(hex_text(bytes)[2 * i]) * 16 + hex_value(hex_text(bytes)[2 * i + 1]) == bytes[i],
{
    assert forall|j: int|
        0 <= j < 2 * bytes.len() implies ('0' <= #[trigger] hex_text(bytes)[j] <= '9') || ('a'
        <= hex_text(bytes)[j] <= 'f') by {
        let b = bytes[j / 2] as int;
        assert(0 <= b / 16 < 16 && 0 <= b % 16 < 16);
    }
    assert((2 * i) / 2 == i);
    assert((2 * i + 1) / 2 == i);
    assert((2 * i) % 2 == 0);
    assert((2 * i + 1) % 2 == 1);
    let b = bytes[i] as int;
    assert(b == (b / 16) * 16 + b % 16);
}

fn hex_digit_of(n: u8) -> (c: char)
    requires
        n < 16,
    ensures
        c == hex_digit(n as int),
{
    if n < 10 {
        (n + 48) as char
    } else {
        (n + 87) as char
    }
}

/// The lowercase hexadecimal form of a digest.
pub fn hex(hash: &Hash) -> (s: String)
    ensures
        s@ == hex_text(hash@),
        s@.len() == 64,
{
    let mut digits: Vec<char> = Vec::new();
    let mut i: usize = 0;
    while i < 32
        invariant
            i <= 32,
            hash@.len() == 32,
            digits@ =~= hex_text(hash@.take(i as int)),
        decreases 32 - i,
    {
        let byte = hash[i];
        digits.push(hex_digit_of(byte / 16));
        digits.push(hex_digit_of(byte % 16));
        i = i + 1;
        assert(hash@.take(i as int).take(i - 1) =~= hash@.take(i - 1));
        assert(digits@ =~= hex_text(hash@.take(i as int)));
    }
    assert(hash@.take(32) =~= hash@);
    crate::text::string_from_chars(&digits)
}

/// Whether two digests are the same.
pub fn same_hash(a: &Hash, b: &Hash) -> (r: bool)
    ensures
        r == (a@ == b@),
{
    let mut i: usize = 0;
    while i < 32
        invariant
            i <= 32,
            a@.len() == 32,
            b@.len() == 32,
            forall|j: int| 0 <= j < i ==> a@[j] == b@[j],
        decreases 32 - i,
    {
        if a[i] != b[i] {
            return false;
        }
        i = i + 1;
    }
    assert(a@ =~= b@);
    true
}

} // verus!
