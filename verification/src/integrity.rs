//! Contract-independent integrity checks for retained node artifacts.
//!
//! This verifier makes no claim about grant validity, receipt signatures,
//! aggregate acceptance, Move state, or payout completion.

use vstd::prelude::*;
use crate::digest::{same_hash, sha256, sha256_digest};

verus! {

/// Whether an artifact's digest is the expected one.
#[derive(Debug, Clone, PartialEq, Eq)]
pub enum ArtifactVerdict {
    Match { digest: crate::digest::Hash },
    Mismatch { expected: crate::digest::Hash, actual: crate::digest::Hash },
}

/// The verdict on an artifact whose digest is `actual` when `expected` was
/// retained for it.
pub fn verdict_for(expected: crate::digest::Hash, actual: crate::digest::Hash) -> (v: ArtifactVerdict)
    ensures
        actual@ == expected@ ==> v == (ArtifactVerdict::Match { digest: actual }),
        actual@ != expected@ ==> v == (ArtifactVerdict::Mismatch { expected, actual }),
{
    if same_hash(&actual, &expected) {
        ArtifactVerdict::Match { digest: actual }
    } else {
        ArtifactVerdict::Mismatch { expected, actual }
    }
}

/// Checks retained bytes against the digest retained for them.
pub fn verify_bytes(expected: crate::digest::Hash, artifact: &[u8]) -> (v: ArtifactVerdict)
    ensures
        sha256_digest(artifact@) == expected@ ==> (v matches ArtifactVerdict::Match { digest }
            && digest@ == expected@),
        sha256_digest(artifact@) != expected@ ==> (v matches ArtifactVerdict::Mismatch {
            expected: e,
            actual,
        } && e == expected && actual@ == sha256_digest(artifact@)),
{
    let actual = sha256(artifact);
    verdict_for(expected, actual)
}

} // verus!
