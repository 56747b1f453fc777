//! The public health snapshot.
use vstd::prelude::*;

verus! {

/// Response body of the unauthenticated health endpoint.
pub struct HealthRoot {
    pub ok: bool,
    pub version: String,
    pub web_enabled: bool,
}

/// The health snapshot: always `ok`, with the running version and whether
/// the web channel is enabled.
pub fn health_root(version: String, web_enabled: bool) -> (res: HealthRoot)
    ensures
        res.ok,
        res.version@ == version@,
        res.web_enabled == web_enabled,
{
    HealthRoot { ok: true, version, web_enabled }
}

} // verus!
