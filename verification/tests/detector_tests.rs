use localwebs::config::{Config, KnownService};
use localwebs::detector::{
    capitalize_first, extract_title, finish_identification, format_process_name,
    health_check_url, pattern_match, plan_identification, service_url, tidy_title, HttpReply,
    IdentifyAction, ProbeOutcome,
};
use localwebs::models::{DetectionSource, OpenPort};

#[test]
fn test_format_process_name() {
    assert_eq!(format_process_name("node"), "Node.js Service");
    assert_eq!(format_process_name("python"), "Python Service");
    assert_eq!(format_process_name("python3"), "Python Service");
    assert_eq!(format_process_name("ruby"), "Ruby Service");
    assert_eq!(format_process_name("java"), "Java Service");
    assert_eq!(format_process_name("nginx"), "Nginx Server");
    assert_eq!(format_process_name("apache2"), "Apache Server");
    assert_eq!(format_process_name("httpd"), "Apache Server");
    assert_eq!(format_process_name("custom"), "Custom Service");
    assert_eq!(format_process_name(""), " Service");
}

#[test]
fn test_pattern_match() {
    assert_eq!(pattern_match(3000), "Node.js/React App");
    assert_eq!(pattern_match(3003), "Node.js/React App");
    assert_eq!(pattern_match(4200), "Angular CLI");
    assert_eq!(pattern_match(5001), "Flask/Dev Server");
    assert_eq!(pattern_match(5173), "Vite Dev Server");
    assert_eq!(pattern_match(8000), "Python HTTP Server");
    assert_eq!(pattern_match(8081), "API Server");
    assert_eq!(pattern_match(8888), "Jupyter Notebook");
    assert_eq!(pattern_match(9999), "Backend Service");
    assert_eq!(pattern_match(9001), "Backend Service");
    assert_eq!(pattern_match(3004), "Unknown HTTP Service");
    assert_eq!(pattern_match(12345), "Unknown HTTP Service");
}

#[test]
fn capitalize_first_examples() {
    assert_eq!(capitalize_first("custom"), "Custom");
    assert_eq!(capitalize_first(""), "");
    assert_eq!(capitalize_first("Already"), "Already");
    assert_eq!(capitalize_first("élan"), "Élan");
    assert_eq!(capitalize_first("ßa"), "SSa");
    assert_eq!(capitalize_first("9lives"), "9lives");
}

#[test]
fn test_extract_title() {
    let html = "<html><head><title>My App</title></head><body></body></html>";
    assert_eq!(extract_title(html), Some("My App".to_string()));
}

#[test]
fn test_extract_title_no_title() {
    let html = "<html><head></head><body>No title</body></html>";
    assert_eq!(extract_title(html), None);
}

#[test]
fn test_extract_title_with_whitespace() {
    let html = "<html><head><title>  Spaced Title  </title></head></html>";
    assert_eq!(extract_title(html), Some("Spaced Title".to_string()));
}

#[test]
fn extract_title_takes_the_first() {
    let html = "<title>\n One\t</title><title>Two</title>";
    assert_eq!(extract_title(html), Some("One".to_string()));
    assert_eq!(extract_title("<title></title>"), Some(String::new()));
}

#[test]
fn tidy_title_trims() {
    assert_eq!(tidy_title(Some("\u{3000} a b \n".to_string())), Some("a b".to_string()));
    assert_eq!(tidy_title(None), None);
}

#[test]
fn urls() {
    assert_eq!(service_url(3000), "http://127.0.0.1:3000");
    assert_eq!(service_url(0), "http://127.0.0.1:0");
    assert_eq!(service_url(65535), "http://127.0.0.1:65535");
    let root = KnownService { port: 1, name: "a".into(), description: None, url_path: "/".into() };
    let health = KnownService { port: 1, name: "a".into(), description: None, url_path: "/api/health".into() };
    assert_eq!(health_check_url("http://127.0.0.1:8080", &root), "http://127.0.0.1:8080");
    assert_eq!(
        health_check_url("http://127.0.0.1:8080", &health),
        "http://127.0.0.1:8080/api/health"
    );
}

fn config_with_api() -> Config {
    let mut config = Config::default();
    config.services.push(KnownService {
        port: 8080,
        name: "API Server".to_string(),
        description: Some("Backend REST API".to_string()),
        url_path: "/api/health".to_string(),
    });
    config
}

#[test]
fn configured_service_is_health_checked() {
    let config = config_with_api();
    let port = OpenPort::with_process(8080, "java".to_string(), Some(42));
    match plan_identification(&config, &port) {
        IdentifyAction::CheckHealth { url } => assert_eq!(url, "http://127.0.0.1:8080/api/health"),
        IdentifyAction::Probe { .. } => panic!("expected a health check"),
    }
    let healthy = finish_identification(
        &config,
        &port,
        ProbeOutcome::Health { healthy: true, elapsed_ms: 12 },
    );
    assert_eq!(healthy.name, "API Server");
    assert_eq!(healthy.description.as_deref(), Some("Backend REST API"));
    assert_eq!(healthy.source, DetectionSource::Config);
    assert_eq!(healthy.url, "http://127.0.0.1:8080");
    assert!(healthy.is_healthy);
    assert_eq!(healthy.response_time_ms, Some(12));
    assert_eq!(healthy.pid, Some(42));
    let down = finish_identification(
        &config,
        &port,
        ProbeOutcome::Health { healthy: false, elapsed_ms: 12 },
    );
    assert!(!down.is_healthy);
    assert_eq!(down.response_time_ms, None);
}

#[test]
fn answering_service_is_named_from_its_page() {
    let config = Config::default();
    let port = OpenPort::with_process(3000, "node".to_string(), Some(7));
    match plan_identification(&config, &port) {
        IdentifyAction::Probe { url } => assert_eq!(url, "http://127.0.0.1:3000"),
        IdentifyAction::CheckHealth { .. } => panic!("expected a probe"),
    }
    let reply = HttpReply {
        server_header: Some("SimpleHTTP/0.6".to_string()),
        powered_by: Some("Express".to_string()),
        body: "<html><title> Docs </title></html>".to_string(),
        response_time_ms: 8,
    };
    let s = finish_identification(&config, &port, ProbeOutcome::Http(Some(reply)));
    assert_eq!(s.name, "Docs");
    assert_eq!(s.title.as_deref(), Some("Docs"));
    assert_eq!(s.server_header.as_deref(), Some("SimpleHTTP/0.6"));
    assert_eq!(s.source, DetectionSource::Http);
    assert!(s.is_healthy);
    assert_eq!(s.response_time_ms, Some(8));
}

#[test]
fn http_name_falls_back_in_order() {
    let config = Config::default();
    let port = OpenPort::with_process(3000, "node".to_string(), None);
    let reply = |powered: Option<&str>, server: Option<&str>| HttpReply {
        server_header: server.map(String::from),
        powered_by: powered.map(String::from),
        body: "<p>no title</p>".to_string(),
        response_time_ms: 1,
    };
    let s = finish_identification(&config, &port, ProbeOutcome::Http(Some(reply(Some("PHP"), Some("nginx")))));
    assert_eq!(s.name, "PHP");
    let s = finish_identification(&config, &port, ProbeOutcome::Http(Some(reply(None, Some("nginx")))));
    assert_eq!(s.name, "nginx");
    let s = finish_identification(&config, &port, ProbeOutcome::Http(Some(reply(None, None))));
    assert_eq!(s.name, "node");
    let bare = OpenPort::new(3000);
    let s = finish_identification(&config, &bare, ProbeOutcome::Http(Some(reply(None, None))));
    assert_eq!(s.name, "Unknown Service");
}

#[test]
fn silent_service_is_named_by_process_then_port() {
    let config = Config::default();
    let port = OpenPort::with_process(5173, "python3".to_string(), Some(9));
    let s = finish_identification(&config, &port, ProbeOutcome::Http(None));
    assert_eq!(s.name, "Python Service");
    assert_eq!(s.source, DetectionSource::Process);
    assert!(!s.is_healthy);
    let bare = OpenPort::new(5173);
    let s = finish_identification(&config, &bare, ProbeOutcome::Http(None));
    assert_eq!(s.name, "Vite Dev Server");
    assert_eq!(s.source, DetectionSource::Pattern);
    assert_eq!(s.url, "http://127.0.0.1:5173");
}
