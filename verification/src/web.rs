//! The answer of the endpoint that forces a full scan.
use vstd::prelude::*;
use crate::models::ServiceInfo;

verus! {

/// The services a forced scan found, how it scanned, and how long it took.
pub struct ScanResponse {
    pub services: Vec<ServiceInfo>,
    pub scan_type: String,
    pub duration_ms: u64,
}

impl ScanResponse {
    /// The answer to a full scan that found `services` in `duration_ms`.
    pub fn full(services: Vec<ServiceInfo>, duration_ms: u64) -> (r: ScanResponse)
        ensures
            r.services == services,
            r.scan_type@ == "full"@,
            r.duration_ms == duration_ms,
    {
        ScanResponse { services, scan_type: String::from_str("full"), duration_ms }
    }
}

} // verus!
