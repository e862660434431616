//! Portal settings, with the defaults that apply where the settings file
//! says nothing, and the table of services the user named.
use vstd::prelude::*;

verus! {

/// The port the portal itself listens on, by default.
pub const DEFAULT_PORTAL_PORT: u16 = 4444;

/// How long a TCP connection attempt of the port scan may take, by default.
pub const DEFAULT_SCAN_TIMEOUT_MS: u64 = 500;

/// How long an HTTP probe may take, by default.
pub const DEFAULT_PROBE_TIMEOUT_MS: u64 = 2000;

/// The ports tried when the listing of sockets is unavailable, by default.
pub open spec fn default_port_list() -> Seq<u16> {
    seq![3000, 3001, 3002, 3003, 4200, 4300, 5000, 5001, 5173, 8000, 8001, 8080, 8081, 8082, 8888, 9000, 9001]
}

#[derive(Debug, Clone)]
pub struct Config {
    pub portal: PortalConfig,
    pub scan_ranges: ScanRanges,
    pub services: Vec<KnownService>,
}

#[derive(Debug, Clone)]
pub struct PortalConfig {
    pub port: u16,
    pub scan_timeout_ms: u64,
    pub probe_timeout_ms: u64,
}

#[derive(Debug, Clone)]
pub struct ScanRanges {
    pub ports: Vec<u16>,
}

/// A service the user described in the settings file.
#[derive(Debug, Clone)]
pub struct KnownService {
    pub port: u16,
    pub name: String,
    pub description: Option<String>,
    /// The path requested to check the service's health.
    pub url_path: String,
}

pub fn default_portal_port() -> (r: u16)
    ensures
        r == DEFAULT_PORTAL_PORT,
{
    DEFAULT_PORTAL_PORT
}

pub fn default_scan_timeout() -> (r: u64)
    ensures
        r == DEFAULT_SCAN_TIMEOUT_MS,
{
    DEFAULT_SCAN_TIMEOUT_MS
}

pub fn default_probe_timeout() -> (r: u64)
    ensures
        r == DEFAULT_PROBE_TIMEOUT_MS,
{
    DEFAULT_PROBE_TIMEOUT_MS
}

pub fn default_ports() -> (r: Vec<u16>)
    ensures
        r@ == default_port_list(),
{
    let r: Vec<u16> = vec![
        3000, 3001, 3002, 3003, 4200, 4300, 5000, 5001, 5173, 8000, 8001, 8080, 8081, 8082, 8888,
        9000, 9001,
    ];
    assert(r@ =~= default_port_list());
    r
}

/// The health-check path of a configured service, by default.
pub fn default_url_path() -> (r: String)
    ensures
        r@ == "/"@,
{
    String::from_str("/")
}

impl Default for PortalConfig {
    fn default() -> (r: Self)
        ensures
            r.port == DEFAULT_PORTAL_PORT,
            r.scan_timeout_ms == DEFAULT_SCAN_TIMEOUT_MS,
            r.probe_timeout_ms == DEFAULT_PROBE_TIMEOUT_MS,
    {
        PortalConfig {
            port: default_portal_port(),
            scan_timeout_ms: default_scan_timeout(),
            probe_timeout_ms: default_probe_timeout(),
        }
    }
}

impl Default for ScanRanges {
    fn default() -> (r: Self)
        ensures
            r.ports@ == default_port_list(),
    {
        ScanRanges { ports: default_ports() }
    }
}

impl Default for Config {
    fn default() -> (r: Self)
        ensures
            r.portal.port == DEFAULT_PORTAL_PORT,
            r.portal.scan_timeout_ms == DEFAULT_SCAN_TIMEOUT_MS,
            r.portal.probe_timeout_ms == DEFAULT_PROBE_TIMEOUT_MS,
            r.scan_ranges.ports@ == default_port_list(),
            r.services@.len() == 0,
    {
        Config {
            portal: PortalConfig::default(),
            scan_ranges: ScanRanges::default(),
            services: Vec::new(),
        }
    }
}

/// The first of `services` that is on `port`.
pub open spec fn first_known(services: Seq<KnownService>, port: u16) -> Option<KnownService>
    decreases services.len(),
{
    if services.len() == 0 {
        None
    } else if services[0].port == port {
        Some(services[0])
    } else {
        first_known(services.drop_first(), port)
    }
}

/// `first_known` gives a service on the port, the earliest one, and `None`
/// only when no service is on the port.
pub proof fn lemma_first_known(services: Seq<KnownService>, port: u16)
    ensures
        first_known(services, port) is None <==> (forall|i: int|
            0 <= i < services.len() ==> (#[trigger] services[i]).port != port),
        first_known(services, port) matches Some(k) ==> exists|i: int|
            0 <= i < services.len() && services[i] == k && k.port == port && forall|j: int|
                0 <= j < i ==> (#[trigger] services[j]).port != port,
    decreases services.len(),
{
    if services.len() > 0 {
        let rest = services.drop_first();
        lemma_first_known(rest, port);
        if services[0].port != port {
            assert forall|i: int| 0 <= i < rest.len() implies rest[i] == services[i + 1] by {}
            if first_known(rest, port) is None {
                assert forall|i: int| 0 <= i < services.len() implies (
                #[trigger] services[i]).port != port by {
                    if i > 0 {
                        assert(services[i] == rest[i - 1]);
                    }
                }
            } else {
                let k = first_known(rest, port)->0;
                let i = choose|i: int|
                    0 <= i < rest.len() && rest[i] == k && k.port == port && forall|j: int|
                        0 <= j < i ==> (#[trigger] rest[j]).port != port;
                assert(services[i + 1] == k);
                assert forall|j: int| 0 <= j < i + 1 implies (#[trigger] services[j]).port
                    != port by {
                    if j > 0 {
                        assert(services[j] == rest[j - 1]);
                    }
                }
                assert(rest[i] == services[i + 1]);
                assert(!(forall|i: int| 0 <= i < services.len() ==> (#[trigger] services[i]).port != port)) by {
                    assert(services[i + 1].port == port);
                }
            }
        } else {
            assert(!(forall|i: int| 0 <= i < services.len() ==> (#[trigger] services[i]).port != port)) by {
                assert(services[0].port == port);
            }
        }
    }
}

impl Config {
    /// The first configured service on `port`, if any.
    pub fn get_known_service(&self, port: u16) -> (r: Option<&KnownService>)
        ensures
            match r {
                Some(k) => first_known(self.services@, port) == Some(*k),
                None => first_known(self.services@, port) is None,
            },
    {
        let n = self.services.len();
        let mut i: usize = 0;
        assert(self.services@.subrange(0, n as int) =~= self.services@);
        while i < n
            invariant
                0 <= i <= n == self.services@.len(),
                first_known(self.services@, port) == first_known(
                    self.services@.subrange(i as int, n as int),
                    port,
                ),
            decreases n - i,
        {
            assert(self.services@.subrange(i as int, n as int).drop_first() =~= self.services@.subrange(
                (i + 1) as int,
                n as int,
            ));
            if self.services[i].port == port {
                return Some(&self.services[i]);
            }
            i = i + 1;
        }
        None
    }
}

} // verus!
