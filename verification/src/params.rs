//! The request shapes of the proxy's HTTP surface.
//!
//! Each struct mirrors one endpoint's query or form parameters as the
//! transport layer hands them to the library: plain strings, already
//! URL-decoded.

use vstd::prelude::*;

verus! {

/// Query parameters of the single-sign-on endpoint on the
/// HTTP-Redirect binding.
pub struct SsoRedirectParams {
    pub saml_request: String,
    pub relay_state: Option<String>,
}

/// Form fields of the single-sign-on endpoint on the HTTP-POST
/// binding.
pub struct SsoPostParams {
    pub saml_request: String,
    pub relay_state: Option<String>,
}

/// Query parameters of the discovery page.
pub struct DiscoveryParams {
    pub session: String,
}

/// Form fields of the discovery submission.
pub struct DiscoveryForm {
    pub session_id: String,
    pub entity_id: String,
}

/// Query parameters of the typeahead search.
pub struct SearchParams {
    pub q: String,
}

/// Query parameters of the upstream-authentication initiation.
pub struct InitiateParams {
    pub session: String,
}

/// Form fields of the assertion-consumer service.
pub struct AcsForm {
    pub saml_response: String,
    pub relay_state: Option<String>,
}

/// Form fields of the single-logout service.
pub struct SloForm {
    pub saml_request: String,
    pub relay_state: Option<String>,
}

} // verus!
