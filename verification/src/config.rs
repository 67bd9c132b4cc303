//! The coordinator's service configuration: every external boundary must be
//! named.

use vstd::prelude::*;
use crate::domain::DomainError;
use crate::text::{is_blank, str_is_blank};

verus! {

/// Why a configuration is refused.
pub const EMPTY_PROVIDER_MESSAGE: &'static str = "provider names must not be empty";

/// The environment the coordinator runs in. Only testnet integration exists.
#[derive(Clone, Debug, Eq, PartialEq)]
pub enum Environment {
    Testnet,
}

/// The named boundaries of the coordinator.
#[derive(Clone, Debug, Eq, PartialEq)]
pub struct ServiceConfig {
    pub environment: Environment,
    pub identity_provider: String,
    pub billing_provider: String,
    pub evidence_store: String,
}

impl ServiceConfig {
    /// Every provider must be named: no provider name may be blank.
    pub fn validate(&self) -> (r: Result<(), DomainError>)
        ensures
            r is Ok <==> !is_blank(self.identity_provider@) && !is_blank(self.billing_provider@)
                && !is_blank(self.evidence_store@),
            r matches Err(e) ==> e == DomainError::InvalidConfiguration(EMPTY_PROVIDER_MESSAGE),
    {
        if str_is_blank(self.identity_provider.as_str()) || str_is_blank(
            self.billing_provider.as_str(),
        ) || str_is_blank(self.evidence_store.as_str()) {
            return Err(DomainError::InvalidConfiguration(EMPTY_PROVIDER_MESSAGE));
        }
        Ok(())
    }
}

} // verus!
