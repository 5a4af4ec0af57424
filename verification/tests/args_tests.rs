use goku::args::{parse_auth, parse_headers, ArgsError, Cli};
use goku::settings::{Auth, Header, OutputFormat, Settings};

#[test]
fn parse_headers_splits_on_first_colon() {
    let raw = vec!["Content-Type:application/json".to_string()];
    let headers = parse_headers(Some(&raw)).unwrap().unwrap();
    assert_eq!(headers[0].key, "Content-Type");
    assert_eq!(headers[0].value, "application/json");
}

#[test]
fn parse_headers_value_with_colon() {
    let raw = vec!["Authorization:Bearer some:token".to_string()];
    let headers = parse_headers(Some(&raw)).unwrap().unwrap();
    assert_eq!(headers[0].key, "Authorization");
    assert_eq!(headers[0].value, "Bearer some:token");
}

#[test]
fn parse_headers_empty_key_is_error() {
    let raw = vec![":value".to_string()];
    assert!(parse_headers(Some(&raw)).is_err());
}

#[test]
fn parse_headers_none_returns_none() {
    assert!(parse_headers(None).unwrap().is_none());
}

#[test]
fn parse_auth_bearer() {
    let auth = parse_auth(Some("mytoken"), None).unwrap().unwrap();
    let _ = matches!(auth, Auth::Bearer { token } if token == "mytoken");
}

#[test]
fn parse_auth_basic() {
    let auth = parse_auth(None, Some("user:pass")).unwrap().unwrap();
    let _ = matches!(auth, Auth::Basic { user, password } if user == "user" && password == "pass");
}

#[test]
fn parse_auth_none() {
    assert!(parse_auth(None, None).unwrap().is_none());
}

#[test]
fn parse_auth_both_errors() {
    assert!(parse_auth(Some("tok"), Some("u:p")).is_err());
}

// --- further cases ---

#[test]
fn parse_headers_trims_and_keeps_missing_value_empty() {
    let raw = vec!["  X-Name  ".to_string(), " A : b : c ".to_string()];
    let headers = parse_headers(Some(&raw)).unwrap().unwrap();
    assert_eq!(headers[0], Header { key: "X-Name".to_string(), value: String::new() });
    assert_eq!(headers[1], Header { key: "A".to_string(), value: "b : c".to_string() });
}

#[test]
fn parse_headers_reports_the_offending_flag() {
    let raw = vec!["A:1".to_string(), "  :x".to_string(), ":y".to_string()];
    let err = parse_headers(Some(&raw)).unwrap_err();
    assert_eq!(err, ArgsError::EmptyHeaderName { header: "  :x".to_string() });
    assert_eq!(err.message(), "Invalid header '  :x': header name cannot be empty");
}

#[test]
fn parse_auth_basic_details() {
    assert_eq!(
        parse_auth(None, Some("user:pa:ss")).unwrap(),
        Some(Auth::Basic { user: "user".to_string(), password: "pa:ss".to_string() })
    );
    assert_eq!(
        parse_auth(None, Some("user")).unwrap(),
        Some(Auth::Basic { user: "user".to_string(), password: String::new() })
    );
    let err = parse_auth(None, Some(":pass")).unwrap_err();
    assert_eq!(err, ArgsError::AuthBasicFormat);
    assert_eq!(err.message(), "--auth-basic requires format 'user:password'");
    assert_eq!(
        parse_auth(Some("a"), Some("b")).unwrap_err().message(),
        "Cannot use --auth-bearer and --auth-basic together"
    );
}

fn cli() -> Cli {
    Cli {
        command: None,
        verbose: false,
        target: Some("POST http://localhost:3000/api".to_string()),
        request_body: None,
        clients: 4,
        iterations: 100,
        duration: None,
        headers: None,
        scenario: None,
        timeout: 1_500,
        http2: true,
        ramp_up: Some(2),
        output: "JSON".to_string(),
        insecure: false,
        rps: Some(10),
        auth_bearer: Some("tok".to_string()),
        auth_basic: None,
        output_file: Some("out.json".to_string()),
        results_log: None,
        live_stats: Some(5),
        pool_idle_timeout: Some(30),
        disable_keepalive: true,
    }
}

#[test]
fn to_settings_from_flags() {
    let mut c = cli();
    c.request_body = Some("body.json".to_string());
    c.headers = Some(vec!["X-A: 1".to_string()]);
    let s = c.to_settings(None, Some("{}".to_string())).unwrap();
    assert_eq!(s.clients, 4);
    assert_eq!(s.requests, 100);
    assert_eq!(s.target, "POST http://localhost:3000/api");
    assert_eq!(s.body, Some("{}".to_string()));
    assert_eq!(s.headers, Some(vec![Header { key: "X-A".to_string(), value: "1".to_string() }]));
    assert_eq!(s.timeout, std::time::Duration::from_millis(1_500));
    assert!(s.http2);
    assert_eq!(s.ramp_up, Some(2));
    assert_eq!(s.output, OutputFormat::Json);
    assert_eq!(s.auth, Some(Auth::Bearer { token: "tok".to_string() }));
    assert_eq!(s.output_file, Some("out.json".to_string()));
    assert_eq!(s.live_stats, Some(5));
    assert_eq!(s.pool_idle_timeout, Some(30));
    assert!(s.disable_keepalive);
    assert!(s.steps.is_empty());
}

#[test]
fn to_settings_unknown_output_falls_back_to_text() {
    let mut c = cli();
    c.output = "xml".to_string();
    let s = c.to_settings(None, None).unwrap();
    assert_eq!(s.output, OutputFormat::Text);
}

#[test]
fn to_settings_keeps_scenario_but_for_output_flags() {
    let mut c = cli();
    c.scenario = Some("scenario.yaml".to_string());
    c.target = None;
    c.auth_bearer = None;
    let mut file: Settings = cli().to_settings(None, None).unwrap();
    file.clients = 9;
    file.output_file = None;
    file.live_stats = None;
    let s = c.to_settings(Some(file.clone()), None).unwrap();
    assert_eq!(s.clients, 9);
    assert_eq!(s.output_file, Some("out.json".to_string()));
    assert_eq!(s.live_stats, Some(5));
    assert_eq!(s.auth, file.auth);
}

#[test]
fn to_settings_refuses_conflicting_auth() {
    let mut c = cli();
    c.auth_basic = Some("u:p".to_string());
    assert_eq!(c.to_settings(None, None).unwrap_err(), ArgsError::AuthConflict);
}

#[test]
fn to_settings_takes_output_and_output_file_from_scenario() {
    let mut c = cli();
    c.scenario = Some("scenario.yaml".to_string());
    c.target = None;
    c.auth_bearer = None;
    c.output = "text".to_string();
    c.output_file = None;
    c.results_log = None;
    c.live_stats = None;
    let mut file: Settings = cli().to_settings(None, None).unwrap();
    file.output = OutputFormat::Json;
    file.output_file = Some("results.json".to_string());
    file.results_log = Some("requests.csv".to_string());
    let s = c.to_settings(Some(file.clone()), None).unwrap();
    assert_eq!(s, file);
    assert_eq!(s.output, OutputFormat::Json);
    assert_eq!(s.output_file, Some("results.json".to_string()));
}
