//! Events the daemon broadcasts to its clients, and the record of one proxied
//! request.

use vstd::prelude::*;

verus! {

/// One proxied request as it is shown in the traffic log.
#[derive(Debug, Clone)]
pub struct TrafficRecord {
    pub id: u64,
    pub timestamp: String,
    pub method: String,
    pub url: String,
    pub status: u16,
    pub duration_ms: u64,
    pub rule_id: Option<String>,
    pub request_headers: Vec<(String, String)>,
    pub response_headers: Vec<(String, String)>,
}

/// Something that happened in the daemon.
#[derive(Debug, Clone)]
pub enum ProxyEvent {
    RequestMatched { rule_id: String, url: String, method: String },
    RequestPassthrough { url: String, method: String },
    RuleToggled { rule_id: String, enabled: bool },
    ProfileSwitched { profile: String, rules_loaded: usize },
    ProxyStarted { listen_addr: String, profile: String },
    ProxyStopped,
    ConfigChanged,
    TrafficEntry(TrafficRecord),
    TrafficCaptureChanged { enabled: bool },
}

} // verus!
