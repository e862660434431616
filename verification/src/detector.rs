//! Naming the service behind an open port.
//!
//! Identification tries, in order: the services the user configured (whose
//! health is then checked over HTTP), an HTTP probe of the port's root page,
//! the owning process's name, and the port number's usual use. The HTTP
//! exchanges are made by the caller: `plan_identification` says which request
//! to make and `finish_identification` turns its outcome into the record.
use vstd::prelude::*;
use crate::text::{
    chars_of, push_chars, push_str, str_equals, trim, trimmed, all_white, tight, lemma_trim_padding,
    lemma_trim_shape,
};
use crate::number::{decimal, push_decimal};
use crate::config::{Config, KnownService, first_known};
use crate::models::{
    DetectionSource, OpenPort, OpenPortView, ServiceInfo, ServiceInfoView, opt_view,
    copy_opt_string,
};

verus! {

// ---------------------------------------------------------------------------
// Addresses
/// The address at which the service on `port` is reached.
pub open spec fn base_url(port: u16) -> Seq<char> {
    "http://127.0.0.1:"@ + decimal(port as nat)
}

/// The address requested to check a configured service's health.
pub open spec fn health_url(base: Seq<char>, known: KnownService) -> Seq<char> {
    if known.url_path@ == "/"@ {
        base
    } else {
        base + known.url_path@
    }
}

/// `http://127.0.0.1:PORT`.
pub fn service_url(port: u16) -> (r: String)
    ensures
        r@ == base_url(port),
{
    let mut s = String::from_str("http://127.0.0.1:");
    push_decimal(&mut s, port as u64);
    s
}

/// The address whose answer tells whether a configured service is healthy:
/// the service's address, followed by the configured path unless that path
/// is `/`.
pub fn health_check_url(base_url: &str, known: &KnownService) -> (r: String)
    ensures
        r@ == health_url(base_url@, *known),
{
    let mut s = String::from_str(base_url);
    if !str_equals(known.url_path.as_str(), "/") {
        push_str(&mut s, known.url_path.as_str());
    }
    s
}

// ---------------------------------------------------------------------------
// Names
/// The usual use of well-known development ports.
pub open spec fn pattern_name(port: u16) -> Seq<char> {
    if 3000 <= port <= 3003 {
        "Node.js/React App"@
    } else if port == 4200 {
        "Angular CLI"@
    } else if port == 5000 || port == 5001 {
        "Flask/Dev Server"@
    } else if port == 5173 {
        "Vite Dev Server"@
    } else if port == 8000 {
        "Python HTTP Server"@
    } else if port == 8080 || port == 8081 {
        "API Server"@
    } else if port == 8888 {
        "Jupyter Notebook"@
    } else if port == 9000 || port == 9001 || port == 9999 {
        "Backend Service"@
    } else {
        "Unknown HTTP Service"@
    }
}

/// The ports that the port number alone names.
pub open spec fn named_pattern_port(port: u16) -> bool {
    port == 3000 || port == 3001 || port == 3002 || port == 3003 || port == 4200 || port == 5000
        || port == 5001 || port == 5173 || port == 8000 || port == 8080 || port == 8081
        || port == 8888 || port == 9000 || port == 9001 || port == 9999
}

/// The table of common development ports: 3000 to 3003 are a Node.js or
/// React app, 4200 the Angular CLI, 5000 and 5001 a Flask or development
/// server, 5173 Vite, 8000 a Python HTTP server, 8080 and 8081 an API
/// server, 8888 Jupyter, 9000, 9001 and 9999 a backend service; every other
/// port is an unknown HTTP service.
pub proof fn lemma_port_pattern_table(port: u16)
    ensures
        pattern_name(3000) == "Node.js/React App"@,
        pattern_name(3001) == "Node.js/React App"@,
        pattern_name(3002) == "Node.js/React App"@,
        pattern_name(3003) == "Node.js/React App"@,
        pattern_name(4200) == "Angular CLI"@,
        pattern_name(5000) == "Flask/Dev Server"@,
        pattern_name(5001) == "Flask/Dev Server"@,
        pattern_name(5173) == "Vite Dev Server"@,
        pattern_name(8000) == "Python HTTP Server"@,
        pattern_name(8080) == "API Server"@,
        pattern_name(8081) == "API Server"@,
        pattern_name(8888) == "Jupyter Notebook"@,
        pattern_name(9000) == "Backend Service"@,
        pattern_name(9001) == "Backend Service"@,
        pattern_name(9999) == "Backend Service"@,
        !named_pattern_port(port) ==> pattern_name(port) == "Unknown HTTP Service"@,
{
}

/// A name for the service on `port` from the port number alone.
pub fn pattern_match(port: u16) -> (r: String)
    ensures
        r@ == pattern_name(port),
{
    if 3000 <= port && port <= 3003 {
        String::from_str("Node.js/React App")
    } else if port == 4200 {
        String::from_str("Angular CLI")
    } else if port == 5000 || port == 5001 {
        String::from_str("Flask/Dev Server")
    } else if port == 5173 {
        String::from_str("Vite Dev Server")
    } else if port == 8000 {
        String::from_str("Python HTTP Server")
    } else if port == 8080 || port == 8081 {
        String::from_str("API Server")
    } else if port == 8888 {
        String::from_str("Jupyter Notebook")
    } else if port == 9000 || port == 9001 || port == 9999 {
        String::from_str("Backend Service")
    } else {
        String::from_str("Unknown HTTP Service")
    }
}

/// What `char::to_uppercase` yields for `c`: the Unicode uppercase mapping,
/// one or more characters.
pub uninterp spec fn char_uppercase(c: char) -> Seq<char>;

/// The uppercase mapping of a character: calls `char::to_uppercase` and
/// collects what it yields. The contract states the result as the name
/// `char_uppercase`, and for ASCII characters the mapping that Unicode gives
/// them (`a`..`z` to `A`..`Z`, every other ASCII character to itself); the
/// mapping of other characters is left unstated.
#[verifier::external_body]
fn uppercase_of(c: char) -> (r: String)
    ensures
        r@ == char_uppercase(c),
        (c as u32) < 128 ==> r@ == seq![ascii_upper(c)],
{
    c.to_uppercase().collect::<String>()
}

/// The uppercase of an ASCII character: `a`..`z` become `A`..`Z`, every
/// other character stays as it is.
pub open spec fn ascii_upper(c: char) -> char {
    if 97 <= (c as u32) <= 122 {
        ((c as u32) - 32) as char
    } else {
        c
    }
}

/// Whether `s` starts with an ASCII character.
pub open spec fn ascii_led(s: Seq<char>) -> bool {
    s.len() > 0 && (s[0] as u32) < 128
}

/// `s` with its ASCII first character in upper case.
pub open spec fn capitalized_ascii(s: Seq<char>) -> Seq<char> {
    seq![ascii_upper(s[0])] + s.drop_first()
}

/// `s` with its first character replaced by that character's uppercase
/// mapping.
pub open spec fn capitalized(s: Seq<char>) -> Seq<char> {
    if s.len() == 0 {
        s
    } else {
        char_uppercase(s[0]) + s.drop_first()
    }
}

/// `s` with its first character in upper case.
pub fn capitalize_first(s: &str) -> (r: String)
    ensures
        r@ == capitalized(s@),
        ascii_led(s@) ==> r@ == capitalized_ascii(s@) && r@.len() == s@.len(),
{
    let v = chars_of(s);
    if v.len() == 0 {
        return String::new();
    }
    let mut r = uppercase_of(v[0]);
    push_chars(&mut r, &v, 1, v.len());
    assert(v@.subrange(1, v@.len() as int) =~= s@.drop_first());
    r
}

/// The display name of a service known only by its process's name.
pub open spec fn process_display_name(p: Seq<char>) -> Seq<char> {
    named_process(p, capitalized(p))
}

/// The display name of a process `p`: a fixed name for well-known servers
/// and runtimes, else `cap` (the capitalised process name) and ` Service`.
pub open spec fn named_process(p: Seq<char>, cap: Seq<char>) -> Seq<char> {
    if p == "node"@ {
        "Node.js Service"@
    } else if p == "python"@ || p == "python3"@ {
        "Python Service"@
    } else if p == "ruby"@ {
        "Ruby Service"@
    } else if p == "java"@ {
        "Java Service"@
    } else if p == "nginx"@ {
        "Nginx Server"@
    } else if p == "apache2"@ || p == "httpd"@ {
        "Apache Server"@
    } else {
        cap + " Service"@
    }
}

/// A name for a service from its process's name.
pub fn format_process_name(process: &str) -> (r: String)
    ensures
        r@ == process_display_name(process@),
        ascii_led(process@) ==> r@ == named_process(process@, capitalized_ascii(process@)),
{
    if str_equals(process, "node") {
        String::from_str("Node.js Service")
    } else if str_equals(process, "python") || str_equals(process, "python3") {
        String::from_str("Python Service")
    } else if str_equals(process, "ruby") {
        String::from_str("Ruby Service")
    } else if str_equals(process, "java") {
        String::from_str("Java Service")
    } else if str_equals(process, "nginx") {
        String::from_str("Nginx Server")
    } else if str_equals(process, "apache2") || str_equals(process, "httpd") {
        String::from_str("Apache Server")
    } else {
        let mut r = capitalize_first(process);
        push_str(&mut r, " Service");
        r
    }
}

// ---------------------------------------------------------------------------
// Page titles
/// The text of the first `title` element of an HTML document, as the
/// `scraper` crate parses the document; `None` where there is no such
/// element.
pub uninterp spec fn html_title_text(html: Seq<char>) -> Option<Seq<char>>;

/// Parses `html` with `scraper::Html::parse_document`, selects `title`
/// elements with a `scraper::Selector` and concatenates the text nodes of the
/// first one. The contract names the result `html_title_text(html)`: a
/// function of the document's characters alone; nothing more is stated of
/// HTML parsing.
#[verifier::external_body]
fn first_title_text(html: &str) -> (r: Option<String>)
    ensures
        opt_view(r) == html_title_text(html@),
{
    let document = scraper::Html::parse_document(html);
    let selector = scraper::Selector::parse("title").ok()?;
    let element = document.select(&selector).next()?;
    Some(element.text().collect::<String>())
}

/// A page title as shown: the text of the title element without surrounding
/// white space.
pub open spec fn title_of(html: Seq<char>) -> Option<Seq<char>> {
    match html_title_text(html) {
        Some(t) => Some(trim(t)),
        None => None,
    }
}

/// A title is the whole text of the title element, with only the white space
/// around it removed, whatever its length: a text that neither starts nor
/// ends with white space, surrounded by any white space in the element, is
/// the title as it stands; and whatever the element holds, the title is a
/// contiguous part of it with nothing but white space before and after.
pub proof fn lemma_title_is_trimmed_text(
    html: Seq<char>,
    pre: Seq<char>,
    body: Seq<char>,
    post: Seq<char>,
)
    ensures
        html_title_text(html) is None <==> title_of(html) is None,
        html_title_text(html) == Some(pre + body + post) && all_white(pre) && all_white(post)
            && tight(body) ==> title_of(html) == Some(body),
        html_title_text(html) matches Some(t) ==> exists|a: int, b: int|
            0 <= a <= b <= t.len() && title_of(html) == Some(t.subrange(a, b)) && all_white(
                t.subrange(0, a),
            ) && all_white(t.subrange(b, t.len() as int)) && tight(t.subrange(a, b)),
{
    if all_white(pre) && all_white(post) && tight(body) {
        lemma_trim_padding(pre, body, post);
    }
    if let Some(t) = html_title_text(html) {
        lemma_trim_shape(t);
    }
}

/// The raw text of a title element, without surrounding white space.
pub fn tidy_title(raw: Option<String>) -> (r: Option<String>)
    ensures
        opt_view(r) == match opt_view(raw) {
            Some(t) => Some(trim(t)),
            None => None,
        },
{
    match raw {
        Some(t) => Some(trimmed(t.as_str())),
        None => None,
    }
}

/// The title of an HTML page, trimmed.
pub fn extract_title(html: &str) -> (r: Option<String>)
    ensures
        opt_view(r) == title_of(html@),
{
    tidy_title(first_title_text(html))
}


// ---------------------------------------------------------------------------
// Records
/// What an HTTP probe of a port's root page brought back.
pub struct HttpReply {
    /// The `Server` header, where it is there and readable as text.
    pub server_header: Option<String>,
    /// The `X-Powered-By` header, where it is there and readable as text.
    pub powered_by: Option<String>,
    /// The body of the answer.
    pub body: String,
    /// How long the answer took to arrive.
    pub response_time_ms: u64,
}

/// The name an answering service gets: the page title, else the
/// `X-Powered-By` header, else the `Server` header, else the process name,
/// else `Unknown Service`.
pub open spec fn http_name(
    title: Option<Seq<char>>,
    powered_by: Option<Seq<char>>,
    server: Option<Seq<char>>,
    process: Option<Seq<char>>,
) -> Seq<char> {
    match title {
        Some(t) => t,
        None => match powered_by {
            Some(p) => p,
            None => match server {
                Some(s) => s,
                None => match process {
                    Some(p) => p,
                    None => "Unknown Service"@,
                },
            },
        },
    }
}

/// The record of a configured service.
pub open spec fn config_view(
    port: OpenPortView,
    known: KnownService,
    url: Seq<char>,
    healthy: bool,
    elapsed_ms: u64,
) -> ServiceInfoView {
    ServiceInfoView {
        port: port.port,
        name: known.name@,
        description: opt_view(known.description),
        source: DetectionSource::Config,
        url,
        title: None,
        server_header: None,
        process_name: port.process_name,
        pid: port.pid,
        is_healthy: healthy,
        response_time_ms: if healthy {
            Some(elapsed_ms)
        } else {
            None
        },
        start_time: port.start_time,
    }
}

/// The record of a service that answered an HTTP probe.
pub open spec fn http_view(
    port: OpenPortView,
    url: Seq<char>,
    reply: HttpReply,
    title: Option<Seq<char>>,
) -> ServiceInfoView {
    ServiceInfoView {
        port: port.port,
        name: http_name(
            title,
            opt_view(reply.powered_by),
            opt_view(reply.server_header),
            port.process_name,
        ),
        description: None,
        source: DetectionSource::Http,
        url,
        title,
        server_header: opt_view(reply.server_header),
        process_name: port.process_name,
        pid: port.pid,
        is_healthy: true,
        response_time_ms: Some(reply.response_time_ms),
        start_time: port.start_time,
    }
}

/// The record of a service that did not answer, named after `name` and
/// identified by `source`.
pub open spec fn silent_view(
    port: OpenPortView,
    url: Seq<char>,
    name: Seq<char>,
    source: DetectionSource,
) -> ServiceInfoView {
    ServiceInfoView {
        port: port.port,
        name,
        description: None,
        source,
        url,
        title: None,
        server_header: None,
        process_name: port.process_name,
        pid: port.pid,
        is_healthy: false,
        response_time_ms: None,
        start_time: port.start_time,
    }
}

/// A configured service, with the outcome of its health check.
pub fn config_service(
    port: &OpenPort,
    known: &KnownService,
    base_url: &str,
    is_healthy: bool,
    elapsed_ms: u64,
) -> (r: ServiceInfo)
    ensures
        r@ == config_view(port@, *known, base_url@, is_healthy, elapsed_ms),
{
    ServiceInfo {
        port: port.port,
        name: known.name.clone(),
        description: copy_opt_string(&known.description),
        source: DetectionSource::Config,
        url: String::from_str(base_url),
        title: None,
        server_header: None,
        process_name: copy_opt_string(&port.process_name),
        pid: port.pid,
        is_healthy,
        response_time_ms: if is_healthy {
            Some(elapsed_ms)
        } else {
            None
        },
        start_time: port.start_time,
    }
}

fn first_of(a: &Option<String>, b: &Option<String>) -> (r: Option<String>)
    ensures
        opt_view(r) == match opt_view(*a) {
            Some(x) => Some(x),
            None => opt_view(*b),
        },
{
    match a {
        Some(x) => Some(x.clone()),
        None => copy_opt_string(b),
    }
}

/// A service that answered an HTTP probe at `url`; `title` is the title of
/// the page it sent (see `extract_title`).
pub fn http_service(port: &OpenPort, url: &str, reply: &HttpReply, title: Option<String>) -> (r:
    ServiceInfo)
    ensures
        r@ == http_view(port@, url@, *reply, opt_view(title)),
{
    let by_process = first_of(&reply.server_header, &port.process_name);
    let by_powered = first_of(&reply.powered_by, &by_process);
    let by_title = first_of(&title, &by_powered);
    let name = match by_title {
        Some(n) => n,
        None => String::from_str("Unknown Service"),
    };
    ServiceInfo {
        port: port.port,
        name,
        description: None,
        source: DetectionSource::Http,
        url: String::from_str(url),
        title,
        server_header: copy_opt_string(&reply.server_header),
        process_name: copy_opt_string(&port.process_name),
        pid: port.pid,
        is_healthy: true,
        response_time_ms: Some(reply.response_time_ms),
        start_time: port.start_time,
    }
}

/// A service that did not answer, named after its process.
pub fn process_service(port: &OpenPort, process_name: &str) -> (r: ServiceInfo)
    ensures
        r@ == silent_view(
            port@,
            base_url(port.port),
            process_display_name(process_name@),
            DetectionSource::Process,
        ),
{
    ServiceInfo {
        port: port.port,
        name: format_process_name(process_name),
        description: None,
        source: DetectionSource::Process,
        url: service_url(port.port),
        title: None,
        server_header: None,
        process_name: copy_opt_string(&port.process_name),
        pid: port.pid,
        is_healthy: false,
        response_time_ms: None,
        start_time: port.start_time,
    }
}

/// A service that did not answer and whose process is unknown, named after
/// its port number.
pub fn pattern_service(port: &OpenPort) -> (r: ServiceInfo)
    ensures
        r@ == silent_view(
            port@,
            base_url(port.port),
            pattern_name(port.port),
            DetectionSource::Pattern,
        ),
{
    ServiceInfo {
        port: port.port,
        name: pattern_match(port.port),
        description: None,
        source: DetectionSource::Pattern,
        url: service_url(port.port),
        title: None,
        server_header: None,
        process_name: copy_opt_string(&port.process_name),
        pid: port.pid,
        is_healthy: false,
        response_time_ms: None,
        start_time: port.start_time,
    }
}

// ---------------------------------------------------------------------------
// The identification exchange
/// The HTTP request that identification needs.
pub enum IdentifyAction {
    /// Check a configured service's health with a GET of `url`.
    CheckHealth { url: String },
    /// Probe the port with a GET of `url`.
    Probe { url: String },
}

/// The outcome of the request that `IdentifyAction` asked for.
pub enum ProbeOutcome {
    /// Whether the health check got an answer, and the time it took.
    Health { healthy: bool, elapsed_ms: u64 },
    /// The probe's answer, or `None` where the request or the reading of
    /// the body failed.
    Http(Option<HttpReply>),
}

/// The request identification of `port` makes.
pub open spec fn planned_request(config: Config, port: u16) -> (bool, Seq<char>) {
    match first_known(config.services@, port) {
        Some(k) => (true, health_url(base_url(port), k)),
        None => (false, base_url(port)),
    }
}

/// Which request to make to identify `port`: the health check of the first
/// configured service on the port, or else a probe of the port's root page.
pub fn plan_identification(config: &Config, port: &OpenPort) -> (r: IdentifyAction)
    ensures
        match r {
            IdentifyAction::CheckHealth { url } => planned_request(*config, port.port) == (
                true,
                url@,
            ),
            IdentifyAction::Probe { url } => planned_request(*config, port.port) == (false, url@),
        },
{
    let base = service_url(port.port);
    match config.get_known_service(port.port) {
        Some(known) => IdentifyAction::CheckHealth { url: health_check_url(base.as_str(), known) },
        None => IdentifyAction::Probe { url: base },
    }
}

/// Whether `outcome` answers the request that `plan_identification` asks for.
pub open spec fn outcome_fits(config: Config, port: u16, outcome: ProbeOutcome) -> bool {
    match outcome {
        ProbeOutcome::Health { .. } => first_known(config.services@, port) is Some,
        ProbeOutcome::Http(_) => first_known(config.services@, port) is None,
    }
}

/// The record identification makes of `port`, given the outcome of its
/// request.
pub open spec fn identified(config: Config, port: OpenPort, outcome: ProbeOutcome) -> ServiceInfoView {
    let url = base_url(port.port);
    match outcome {
        ProbeOutcome::Health { healthy, elapsed_ms } => config_view(
            port@,
            first_known(config.services@, port.port)->0,
            url,
            healthy,
            elapsed_ms,
        ),
        ProbeOutcome::Http(Some(reply)) => http_view(port@, url, reply, title_of(reply.body@)),
        ProbeOutcome::Http(None) => match port.process_name {
            Some(p) => silent_view(port@, url, process_display_name(p@), DetectionSource::Process),
            None => silent_view(port@, url, pattern_name(port.port), DetectionSource::Pattern),
        },
    }
}

/// The record of `port`, from the outcome of the request that
/// `plan_identification` asked for.
pub fn finish_identification(config: &Config, port: &OpenPort, outcome: ProbeOutcome) -> (r:
    ServiceInfo)
    requires
        outcome_fits(*config, port.port, outcome),
    ensures
        r@ == identified(*config, *port, outcome),
{
    let base = service_url(port.port);
    match outcome {
        ProbeOutcome::Health { healthy, elapsed_ms } => {
            match config.get_known_service(port.port) {
                Some(known) => config_service(port, known, base.as_str(), healthy, elapsed_ms),
                None => pattern_service(port),
            }
        },
        ProbeOutcome::Http(Some(reply)) => {
            let title = extract_title(reply.body.as_str());
            http_service(port, base.as_str(), &reply, title)
        },
        ProbeOutcome::Http(None) => match &port.process_name {
            Some(p) => process_service(port, p.as_str()),
            None => pattern_service(port),
        },
    }
}

/// Identification keeps what the scan learnt of the port: its number, its
/// process, the process's id and start time.
pub proof fn lemma_identification_keeps_port(config: Config, port: OpenPort, outcome: ProbeOutcome)
    ensures
        identified(config, port, outcome).port == port.port,
        identified(config, port, outcome).process_name == port@.process_name,
        identified(config, port, outcome).pid == port.pid,
        identified(config, port, outcome).start_time == port.start_time,
        identified(config, port, outcome).url == base_url(port.port),
{
}

/// A configured service is always reported under its configured name and
/// identified by the settings; a service is healthy exactly when it answered.
pub proof fn lemma_identification_sources(config: Config, port: OpenPort, outcome: ProbeOutcome)
    requires
        outcome_fits(config, port.port, outcome),
    ensures
        first_known(config.services@, port.port) matches Some(k) ==> identified(
            config,
            port,
            outcome,
        ).source == DetectionSource::Config && identified(config, port, outcome).name
            == k.name@,
        first_known(config.services@, port.port) is None ==> (identified(
            config,
            port,
            outcome,
        ).source == DetectionSource::Http <==> outcome matches ProbeOutcome::Http(Some(_))),
        identified(config, port, outcome).is_healthy <==> match outcome {
            ProbeOutcome::Health { healthy, .. } => healthy,
            ProbeOutcome::Http(reply) => reply is Some,
        },
        identified(config, port, outcome).response_time_ms is Some <==> identified(
            config,
            port,
            outcome,
        ).is_healthy,
{
}

} // verus!
