use goku::banner::{banner_line, banner_tags, BannerTag};
use goku::mcp::BenchmarkRequest;
use goku::settings::{Auth, Header, OutputFormat, Settings, Step};

fn request() -> BenchmarkRequest {
    BenchmarkRequest {
        target: "POST http://api/users".to_string(),
        clients: 3,
        requests: None,
        duration_secs: None,
        body: Some("{}".to_string()),
        headers: Some(vec![" X-A : 1 ".to_string(), ":v".to_string()]),
        http2: None,
        ramp_up: Some(1),
        timeout_ms: None,
        insecure: Some(true),
        rps: Some(4),
    }
}

#[test]
fn benchmark_request_defaults() {
    let s: Settings = request().to_settings();
    assert_eq!(s.clients, 3);
    assert_eq!(s.requests, 1);
    assert_eq!(s.timeout, std::time::Duration::from_millis(30_000));
    assert!(!s.http2);
    assert!(s.insecure);
    assert_eq!(s.output, OutputFormat::Text);
    assert_eq!(
        s.headers,
        Some(vec![
            Header { key: "X-A".to_string(), value: "1".to_string() },
            Header { key: "".to_string(), value: "v".to_string() },
        ])
    );
}

#[test]
fn banner_for_targets_and_steps() {
    let mut s = request().to_settings();
    assert_eq!(
        banner_line(&s),
        "kamehameha to POST http://api/users with 3 concurrent clients and 1 total iterations"
    );
    s.steps = vec![
        Step { target: "GET http://a".to_string(), body: None, headers: None },
        Step { target: "GET http://b".to_string(), body: None, headers: None },
    ];
    s.duration = Some(9);
    assert_eq!(banner_line(&s), "kamehameha to 2 steps with 3 concurrent clients for 9 seconds");
    s.auth = Some(Auth::Bearer { token: "t".to_string() });
    s.http2 = true;
    let tags = banner_tags(&s);
    assert_eq!(
        tags,
        vec![BannerTag::Http2, BannerTag::Insecure, BannerTag::RpsLimit(4), BannerTag::Auth]
    );
    let texts: Vec<String> = tags.iter().map(|t| t.text()).collect();
    assert_eq!(texts, vec!["HTTP/2", "insecure", "4rps limit", "auth"]);
}
