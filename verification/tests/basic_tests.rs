use goku::basic::execution::{request_headers, status_code, Outcome};
use goku::basic::benchmark::{Average, BenchmarkResult, Report};
use goku::basic::settings::{Args, Header, Operation, Settings};

#[test]
fn should_set_get_as_default_operation() {
    let args = Args { target: Some("https://localhost:3000".to_string()), ..Default::default() };
    let settings = Settings::from_args(args, None);
    assert_eq!(Operation::Get, settings.operation());
}

#[test]
fn should_get_operation_from_target() {
    let args = Args { target: Some("POST https://localhost:3000".to_string()), ..Default::default() };
    let settings = Settings::from_args(args, None);
    assert_eq!(Operation::Post, settings.operation());
}

#[test]
fn should_get_target_from_target_without_operation() {
    let args = Args { target: Some("https://localhost:3000".to_string()), ..Default::default() };
    let settings = Settings::from_args(args, None);
    assert_eq!("https://localhost:3000", settings.target());
}

#[test]
fn should_get_target_from_target_with_operation() {
    let args = Args { target: Some("POST https://localhost:3000".to_string()), ..Default::default() };
    let settings = Settings::from_args(args, None);
    assert_eq!("https://localhost:3000", settings.target());
}

#[test]
fn should_set_get_operation_if_operation_is_not_allowed() {
    let args = Args { target: Some("FOO https://localhost:3000".to_string()), ..Default::default() };
    let settings = Settings::from_args(args, None);
    assert_eq!(Operation::Get, settings.operation());
}

#[test]
fn should_set_none_headers_if_not_present() {
    let args = Args {
        target: Some("FOO https://localhost:3000".to_string()),
        request_body: None,
        ..Default::default()
    };
    let settings = Settings::from_args(args, None);
    assert_eq!(settings.headers, None);
}

#[test]
fn should_set_headers() {
    let args = Args {
        target: Some("FOO https://localhost:3000".to_string()),
        headers: Some(vec!["bar:foo".to_string(), "Content-Type:application/json".to_string()]),
        ..Default::default()
    };
    let settings = Settings::from_args(args, None);
    assert_eq!(
        settings.headers,
        Some(vec![
            Header { key: "bar".to_string(), value: "foo".to_string() },
            Header { key: "Content-Type".to_string(), value: "application/json".to_string() },
        ])
    );
}

// --- further cases ---

#[test]
fn every_method_is_recognised_in_any_case() {
    let cases = [
        ("HEAD https://x", Operation::Head),
        ("put https://x", Operation::Put),
        ("PUT https://localhost:3000", Operation::Put),
        ("delete https://x", Operation::Delete),
        ("PATCH https://x", Operation::Patch),
        ("post https://x", Operation::Post),
        ("Get https://x", Operation::Get),
        ("FOO https://x", Operation::Get),
    ];
    for (t, op) in cases {
        let s = Settings::from_args(Args { target: Some(t.to_string()), ..Default::default() }, None);
        assert_eq!(s.operation(), op);
    }
}

#[test]
fn header_value_is_everything_after_the_first_colon() {
    let args = Args {
        target: Some("https://x".to_string()),
        headers: Some(vec!["a:b:c".to_string(), "Authorization:Bearer some:token".to_string()]),
        ..Default::default()
    };
    let s = Settings::from_args(args, Some("body".to_string()));
    assert_eq!(
        s.headers,
        Some(vec![
            Header { key: "a".to_string(), value: "b:c".to_string() },
            Header { key: "Authorization".to_string(), value: "Bearer some:token".to_string() },
        ])
    );
    assert_eq!(s.body, Some("body".to_string()));
}

#[test]
fn requests_by_client_and_banner() {
    let s = Settings::from_args(
        Args {
            target: Some("https://x".to_string()),
            clients: 4,
            iterations: 10,
            ..Default::default()
        },
        None,
    );
    assert_eq!(s.requests_by_client(), 2);
    assert_eq!(
        s.banner(),
        "kamehameha to https://x with 4 concurrent clients and 10 total iterations"
    );
    let s = Settings { duration: Some(60), ..s };
    assert_eq!(s.banner(), "kamehameha to https://x with 4 concurrent clients for 60 seconds");
}

#[test]
fn to_settings_uses_scenario_when_given() {
    let file = Settings::from_args(
        Args { target: Some("https://file".to_string()), ..Default::default() },
        None,
    );
    let args = Args { scenario: Some("s.yaml".to_string()), ..Default::default() };
    assert_eq!(args.to_settings(Some(file.clone()), None), file);
}

#[test]
fn average_and_report() {
    let mut r = Report::new();
    r.add_result(BenchmarkResult { status: 200, duration: 4, execution: 0, num_client: 0 });
    let v = vec![
        BenchmarkResult { status: 200, duration: 4, execution: 0, num_client: 0 },
        BenchmarkResult { status: 0, duration: 7, execution: 1, num_client: 0 },
    ];
    assert_eq!(v.avg(), 5);
}

#[test]
fn basic_request_headers_are_inserted_in_order() {
    let s = Settings {
        clients: 1,
        requests: 1,
        target: "http://localhost/".to_string(),
        keep_alive: None,
        body: None,
        headers: Some(vec![
            Header { key: "Content-Type".to_string(), value: "text/plain".to_string() },
            Header { key: "content-type".to_string(), value: "application/json".to_string() },
            Header { key: "X-A".to_string(), value: "1".to_string() },
        ]),
        duration: None,
        verbose: false,
    };
    let m = request_headers(&s);
    assert_eq!(m.len(), 2);
    assert_eq!(m.get("content-type").unwrap(), "application/json");
    assert_eq!(m.get("x-a").unwrap(), "1");
}

#[test]
fn basic_status_code_is_zero_without_a_response() {
    assert_eq!(status_code(Outcome::Response { code: 201 }), 201);
    assert_eq!(status_code(Outcome::Failure { code: Some(502) }), 502);
    assert_eq!(status_code(Outcome::Failure { code: None }), 0);
}
