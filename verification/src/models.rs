//! The records that flow through discovery: a listening port found on the
//! machine, and what is known of the service behind it.
use vstd::prelude::*;

verus! {

/// The characters of an optional string.
pub open spec fn opt_view(o: Option<String>) -> Option<Seq<char>> {
    match o {
        Some(s) => Some(s@),
        None => None,
    }
}

/// A copy of an optional string.
pub fn copy_opt_string(o: &Option<String>) -> (r: Option<String>)
    ensures
        opt_view(r) == opt_view(*o),
{
    match o {
        Some(s) => Some(s.clone()),
        None => None,
    }
}

/// How a service was identified.
#[derive(Clone, Copy, Debug, PartialEq, Eq, Structural)]
pub enum DetectionSource {
    Config,
    Process,
    Http,
    Pattern,
    Unknown,
}

/// What is known of the service listening on one port.
#[derive(Debug, Clone)]
pub struct ServiceInfo {
    pub port: u16,
    pub name: String,
    pub description: Option<String>,
    pub source: DetectionSource,
    pub url: String,
    pub title: Option<String>,
    pub server_header: Option<String>,
    pub process_name: Option<String>,
    pub pid: Option<u32>,
    pub is_healthy: bool,
    pub response_time_ms: Option<u64>,
    /// Unix time, in seconds, at which the owning process started.
    pub start_time: Option<i64>,
}

/// `ServiceInfo` with its strings taken as character sequences.
pub struct ServiceInfoView {
    pub port: u16,
    pub name: Seq<char>,
    pub description: Option<Seq<char>>,
    pub source: DetectionSource,
    pub url: Seq<char>,
    pub title: Option<Seq<char>>,
    pub server_header: Option<Seq<char>>,
    pub process_name: Option<Seq<char>>,
    pub pid: Option<u32>,
    pub is_healthy: bool,
    pub response_time_ms: Option<u64>,
    pub start_time: Option<i64>,
}

impl View for ServiceInfo {
    type V = ServiceInfoView;

    open spec fn view(&self) -> ServiceInfoView {
        ServiceInfoView {
            port: self.port,
            name: self.name@,
            description: opt_view(self.description),
            source: self.source,
            url: self.url@,
            title: opt_view(self.title),
            server_header: opt_view(self.server_header),
            process_name: opt_view(self.process_name),
            pid: self.pid,
            is_healthy: self.is_healthy,
            response_time_ms: self.response_time_ms,
            start_time: self.start_time,
        }
    }
}

impl ServiceInfo {
    /// A field-by-field copy.
    pub fn duplicate(&self) -> (r: ServiceInfo)
        ensures
            r@ == self@,
    {
        ServiceInfo {
            port: self.port,
            name: self.name.clone(),
            description: copy_opt_string(&self.description),
            source: self.source,
            url: self.url.clone(),
            title: copy_opt_string(&self.title),
            server_header: copy_opt_string(&self.server_header),
            process_name: copy_opt_string(&self.process_name),
            pid: self.pid,
            is_healthy: self.is_healthy,
            response_time_ms: self.response_time_ms,
            start_time: self.start_time,
        }
    }
}

/// A port found listening, with what the scan learnt of its process.
#[derive(Debug, Clone)]
pub struct OpenPort {
    pub port: u16,
    pub process_name: Option<String>,
    pub pid: Option<u32>,
    pub start_time: Option<i64>,
}

pub struct OpenPortView {
    pub port: u16,
    pub process_name: Option<Seq<char>>,
    pub pid: Option<u32>,
    pub start_time: Option<i64>,
}

impl View for OpenPort {
    type V = OpenPortView;

    open spec fn view(&self) -> OpenPortView {
        OpenPortView {
            port: self.port,
            process_name: opt_view(self.process_name),
            pid: self.pid,
            start_time: self.start_time,
        }
    }
}

/// The views of a sequence of open ports.
pub open spec fn open_port_views(s: Seq<OpenPort>) -> Seq<OpenPortView> {
    s.map_values(|p: OpenPort| p@)
}

/// The views of a sequence of services.
pub open spec fn service_views(s: Seq<ServiceInfo>) -> Seq<ServiceInfoView> {
    s.map_values(|x: ServiceInfo| x@)
}

impl OpenPort {
    /// A port with nothing known of its process.
    pub fn new(port: u16) -> (r: OpenPort)
        ensures
            r@ == (OpenPortView { port, process_name: None, pid: None, start_time: None }),
    {
        OpenPort { port, process_name: None, pid: None, start_time: None }
    }

    /// A port owned by the named process.
    pub fn with_process(port: u16, process_name: String, pid: Option<u32>) -> (r: OpenPort)
        ensures
            r@ == (OpenPortView {
                port,
                process_name: Some(process_name@),
                pid,
                start_time: None,
            }),
    {
        OpenPort { port, process_name: Some(process_name), pid, start_time: None }
    }

    /// A field-by-field copy.
    pub fn duplicate(&self) -> (r: OpenPort)
        ensures
            r@ == self@,
    {
        OpenPort {
            port: self.port,
            process_name: copy_opt_string(&self.process_name),
            pid: self.pid,
            start_time: self.start_time,
        }
    }
}

} // verus!
