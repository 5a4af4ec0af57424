use std::time::Duration;

use goku::settings::{
    base64_encode, default_timeout, Auth, OutputFormat, Operation, Settings, SettingsError, Step,
};

fn base_settings() -> Settings {
    Settings {
        clients: 1,
        requests: 1,
        target: "GET http://localhost:3000/".to_string(),
        keep_alive: None,
        body: None,
        headers: None,
        duration: None,
        verbose: false,
        timeout: Duration::from_millis(30_000),
        http2: false,
        ramp_up: None,
        output: OutputFormat::Text,
        insecure: false,
        rps: None,
        auth: None,
        output_file: None,
        results_log: None,
        steps: vec![],
        live_stats: None,
        pool_idle_timeout: None,
        disable_keepalive: false,
    }
}

// --- operation() ---

#[test]
fn operation_defaults_to_get_when_only_url() {
    let s = Settings { target: "http://localhost:3000/".to_string(), ..base_settings() };
    assert_eq!(s.operation(), Operation::Get);
}

#[test]
fn operation_parses_post() {
    let s = Settings { target: "POST http://localhost:3000/".to_string(), ..base_settings() };
    assert_eq!(s.operation(), Operation::Post);
}

#[test]
fn operation_is_case_insensitive_via_strum() {
    let s = Settings { target: "put http://localhost:3000/".to_string(), ..base_settings() };
    assert_eq!(s.operation(), Operation::Put);
}

#[test]
fn operation_falls_back_to_get_for_unknown_method() {
    let s = Settings { target: "FOOBAR http://localhost:3000/".to_string(), ..base_settings() };
    assert_eq!(s.operation(), Operation::Get);
}

// --- target_url() ---

#[test]
fn target_url_with_method() {
    let s = Settings { target: "POST http://example.com/api".to_string(), ..base_settings() };
    assert_eq!(s.target_url(), "http://example.com/api");
}

#[test]
fn target_url_without_method() {
    let s = Settings { target: "http://example.com/api".to_string(), ..base_settings() };
    assert_eq!(s.target_url(), "http://example.com/api");
}

// --- requests_by_client() ---

#[test]
fn requests_by_client_divides_evenly() {
    let s = Settings { clients: 5, requests: 100, ..base_settings() };
    assert_eq!(s.requests_by_client(), 20);
}

#[test]
fn requests_by_client_floors_remainder() {
    let s = Settings { clients: 3, requests: 10, ..base_settings() };
    assert_eq!(s.requests_by_client(), 3);
}

#[test]
fn requests_by_client_returns_zero_when_clients_zero() {
    let s = Settings { clients: 0, requests: 100, ..base_settings() };
    assert_eq!(s.requests_by_client(), 0);
}

// --- validate() ---

#[test]
fn validate_rejects_zero_clients() {
    let s = Settings { clients: 0, ..base_settings() };
    assert!(s.validate().is_err());
}

#[test]
fn validate_rejects_zero_requests_without_duration() {
    let s = Settings { requests: 0, duration: None, ..base_settings() };
    assert!(s.validate().is_err());
}

#[test]
fn validate_accepts_zero_requests_with_duration() {
    let s = Settings { requests: 0, duration: Some(10), ..base_settings() };
    assert!(s.validate().is_ok());
}

#[test]
fn validate_rejects_invalid_url() {
    let s = Settings { target: "GET not-a-valid-url".to_string(), ..base_settings() };
    assert!(s.validate().is_err());
}

#[test]
fn validate_rejects_url_missing_scheme() {
    let s = Settings { target: "GET localhost:3000".to_string(), ..base_settings() };
    assert!(s.validate().is_err());
}

#[test]
fn validate_rejects_ramp_up_gte_duration() {
    let s = Settings { ramp_up: Some(60), duration: Some(30), ..base_settings() };
    assert!(s.validate().is_err());
}

#[test]
fn validate_accepts_valid_settings() {
    assert!(base_settings().validate().is_ok());
}

// --- OutputFormat ---

#[test]
fn output_format_parses_json() {
    assert_eq!("json".parse::<OutputFormat>().unwrap(), OutputFormat::Json);
}

#[test]
fn output_format_parses_csv() {
    assert_eq!("CSV".parse::<OutputFormat>().unwrap(), OutputFormat::Csv);
}

#[test]
fn output_format_parses_text_and_plain() {
    assert_eq!("text".parse::<OutputFormat>().unwrap(), OutputFormat::Text);
    assert_eq!("plain".parse::<OutputFormat>().unwrap(), OutputFormat::Text);
}

#[test]
fn output_format_rejects_unknown() {
    assert!("xml".parse::<OutputFormat>().is_err());
}

// --- Auth::header_value() ---

#[test]
fn auth_bearer_header() {
    let auth = Auth::Bearer { token: "mytoken".to_string() };
    assert_eq!(auth.header_value(), "Bearer mytoken");
}

#[test]
fn auth_basic_header() {
    let auth = Auth::Basic { user: "user".to_string(), password: "pass".to_string() };
    assert_eq!(auth.header_value(), "Basic dXNlcjpwYXNz");
}

// --- further cases ---

#[test]
fn base64_pads_short_chunks() {
    assert_eq!(base64_encode(b""), "");
    assert_eq!(base64_encode(b"f"), "Zg==");
    assert_eq!(base64_encode(b"fo"), "Zm8=");
    assert_eq!(base64_encode(b"foo"), "Zm9v");
    assert_eq!(base64_encode(b"foobar"), "Zm9vYmFy");
    assert_eq!(base64_encode(&[0xfb, 0xff]), "+/8=");
}

#[test]
fn auth_basic_header_encodes_utf8() {
    let auth = Auth::Basic { user: "é".to_string(), password: "".to_string() };
    assert_eq!(auth.header_value(), "Basic w6k6");
}

#[test]
fn output_format_error_names_the_lowercased_input() {
    let err = "XML".parse::<OutputFormat>().unwrap_err();
    assert_eq!(err.message(), "Unknown format 'xml'. Valid options: text, json, csv");
}

#[test]
fn operation_parses_every_method_and_ignores_extra_words() {
    for (t, op) in [
        ("get a", Operation::Get),
        ("Head a", Operation::Head),
        ("patch a", Operation::Patch),
        ("DELETE a", Operation::Delete),
        ("  post \t http://x/  extra", Operation::Post),
    ] {
        let s = Settings { target: t.to_string(), ..base_settings() };
        assert_eq!(s.operation(), op);
    }
    let s = Settings { target: "  POST \t http://x/  extra".to_string(), ..base_settings() };
    assert_eq!(s.target_url(), "http://x/");
}

#[test]
fn step_operation_and_url() {
    let step = Step { target: "DELETE http://x/y".to_string(), body: None, headers: None };
    assert_eq!(step.operation(), Operation::Delete);
    assert_eq!(step.url(), "http://x/y");
}

#[test]
fn default_timeout_is_thirty_seconds() {
    assert_eq!(default_timeout(), Duration::from_millis(30_000));
}

#[test]
fn validate_reports_each_problem() {
    let s = Settings { target: "   ".to_string(), ..base_settings() };
    assert_eq!(s.validate(), Err(SettingsError::EmptyTarget));
    assert_eq!(SettingsError::EmptyTarget.message(), "--target cannot be empty");
    let s = Settings { target: "GET ftp://host/x".to_string(), ..base_settings() };
    let err = s.validate().unwrap_err();
    assert_eq!(
        err,
        SettingsError::UnsupportedScheme {
            scheme: "ftp".to_string(),
            url: "ftp://host/x".to_string(),
            step: None
        }
    );
    assert_eq!(
        err.message(),
        "Invalid URL scheme 'ftp' in 'ftp://host/x'. Only http and https are supported."
    );
    let s = Settings { ramp_up: Some(30), duration: Some(30), ..base_settings() };
    assert_eq!(
        s.validate().unwrap_err().message(),
        "--ramp-up (30s) must be shorter than --duration (30s)"
    );
    let s = Settings { clients: 0, requests: 0, ..base_settings() };
    assert_eq!(s.validate().unwrap_err().message(), "--clients must be greater than 0");
    let s = Settings { requests: 0, ..base_settings() };
    assert_eq!(s.validate().unwrap_err().message(), "--iterations must be greater than 0");
}

#[test]
fn validate_checks_steps_in_order() {
    let step = |t: &str| Step { target: t.to_string(), body: None, headers: None };
    let s = Settings {
        target: String::new(),
        steps: vec![step("GET http://a/"), step("POST nope"), step("   ")],
        ..base_settings()
    };
    match s.validate().unwrap_err() {
        SettingsError::InvalidUrl { url, step, .. } => {
            assert_eq!(url, "nope");
            assert_eq!(step, Some(2));
        }
        other => panic!("unexpected {:?}", other),
    }
    let s = Settings { steps: vec![step("GET http://a/"), step(" ")], ..base_settings() };
    let e = s.validate().unwrap_err();
    assert_eq!(e, SettingsError::EmptyStepTarget { step: 2 });
    assert_eq!(e.message(), "Empty target in step 2 of scenario");
    let s = Settings { steps: vec![step("")], ..base_settings() };
    assert!(s.validate().is_err());
    let s = Settings { steps: vec![step("http://a/"), step("https://b/")], ..base_settings() };
    assert_eq!(s.validate(), Ok(()));
}
