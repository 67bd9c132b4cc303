use porto::config::{Environment, ServiceConfig, EMPTY_PROVIDER_MESSAGE};
use porto::domain::DomainError;
use porto::integrity::{verdict_for, verify_bytes, ArtifactVerdict};
use sha2::{Digest as _, Sha256};

type Hash = [u8; 32];

#[test]
fn reports_only_artifact_integrity() {
    let expected: Hash = Sha256::digest(b"retained evidence").into();
    assert!(matches!(
        verify_bytes(expected, b"retained evidence"),
        ArtifactVerdict::Match { .. }
    ));
    assert!(matches!(
        verify_bytes(expected, b"changed"),
        ArtifactVerdict::Mismatch { .. }
    ));
}

#[test]
fn verdict_carries_both_digests() {
    let a = [1u8; 32];
    let b = [2u8; 32];
    assert_eq!(verdict_for(a, a), ArtifactVerdict::Match { digest: a });
    assert_eq!(
        verdict_for(a, b),
        ArtifactVerdict::Mismatch {
            expected: a,
            actual: b
        }
    );
}

#[test]
fn fixture_configuration_requires_named_boundaries() {
    let config = ServiceConfig {
        environment: Environment::Testnet,
        identity_provider: "fixture".into(),
        billing_provider: "fixture".into(),
        evidence_store: "private".into(),
    };
    assert_eq!(config.validate(), Ok(()));
}

#[test]
fn blank_provider_names_are_refused() {
    let config = ServiceConfig {
        environment: Environment::Testnet,
        identity_provider: "fixture".into(),
        billing_provider: "  ".into(),
        evidence_store: "private".into(),
    };
    assert_eq!(
        config.validate(),
        Err(DomainError::InvalidConfiguration(EMPTY_PROVIDER_MESSAGE))
    );
}
