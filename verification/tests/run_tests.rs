use std::time::Duration;

use goku::benchmark::{
    pad_left, pad_right, status_lines, text_row, BenchmarkResult, Report, StatusBreakdown,
};
use goku::execution::{
    channel_capacity, plan_run, prepare_request_at, resolve_steps, response_status,
    RequestOutcome, ResolvedStep, RunError, Worker, WorkerAction, WorkerMode,
};
use goku::headers::{build_headers, build_step_headers, merge_headers, HeaderError};
use goku::mcp::BenchmarkRequest;
use goku::settings::{Auth, Header, Operation, OutputFormat, Settings, SettingsError, Step};

fn settings_for(target: &str) -> Settings {
    Settings {
        clients: 2,
        requests: 10,
        target: target.to_string(),
        keep_alive: None,
        body: None,
        headers: None,
        duration: None,
        verbose: false,
        timeout: Duration::from_millis(30_000),
        http2: false,
        ramp_up: None,
        output: OutputFormat::Text,
        insecure: false,
        rps: None,
        auth: None,
        output_file: None,
        results_log: None,
        steps: vec![],
        live_stats: None,
        pool_idle_timeout: None,
        disable_keepalive: false,
    }
}

fn header(k: &str, v: &str) -> Header {
    Header { key: k.to_string(), value: v.to_string() }
}

fn step(target: &str, headers: Option<Vec<Header>>) -> Step {
    Step { target: target.to_string(), body: None, headers }
}

// --- headers ---

#[test]
fn headers_are_lowered_and_auth_is_added() {
    let s = Settings {
        headers: Some(vec![header("X-Api-Key", "secret")]),
        auth: Some(Auth::Bearer { token: "tok".to_string() }),
        ..settings_for("http://localhost/")
    };
    let map = build_headers(&s).unwrap();
    assert_eq!(map.len(), 2);
    assert_eq!(map.get("x-api-key").unwrap(), "secret");
    assert_eq!(map.get("authorization").unwrap(), "Bearer tok");
}

#[test]
fn a_later_header_replaces_an_earlier_one() {
    let s = Settings {
        headers: Some(vec![header("Accept", "a"), header("accept", "b")]),
        ..settings_for("http://localhost/")
    };
    let map = build_headers(&s).unwrap();
    assert_eq!(map.len(), 1);
    assert_eq!(map.get("accept").unwrap(), "b");
}

#[test]
fn invalid_header_name_is_refused() {
    let s = Settings { headers: Some(vec![header("bad name", "v")]), ..settings_for("http://x/") };
    let e = build_headers(&s).unwrap_err();
    assert_eq!(e, HeaderError::InvalidName { name: "bad name".to_string() });
    assert_eq!(e.message(), "Invalid header name: 'bad name'");
    let s = Settings { headers: Some(vec![header("", "v")]), ..settings_for("http://x/") };
    assert!(matches!(build_headers(&s), Err(HeaderError::InvalidName { .. })));
}

#[test]
fn invalid_header_value_is_refused() {
    let s = Settings { headers: Some(vec![header("X-A", "a\nb")]), ..settings_for("http://x/") };
    let e = build_headers(&s).unwrap_err();
    assert_eq!(e, HeaderError::InvalidValue { name: "X-A".to_string(), value: "a\nb".to_string() });
    assert_eq!(e.message(), "Invalid header value for 'X-A': 'a\nb'");
}

#[test]
fn invalid_auth_value_is_refused() {
    let s = Settings {
        auth: Some(Auth::Bearer { token: "a\u{7f}".to_string() }),
        ..settings_for("http://x/")
    };
    assert_eq!(build_headers(&s).unwrap_err(), HeaderError::InvalidAuth);
    assert_eq!(HeaderError::InvalidAuth.message(), "Invalid Authorization header value");
}

#[test]
fn step_headers_override_global_ones() {
    let s = Settings {
        headers: Some(vec![header("Accept", "text/plain"), header("X-Run", "1")]),
        ..settings_for("http://x/")
    };
    let global = build_headers(&s).unwrap();
    let st = step("http://x/", Some(vec![header("accept", "application/json")]));
    let extra = build_step_headers(&st).unwrap();
    let merged = merge_headers(&global, &extra);
    assert_eq!(merged.len(), 2);
    assert_eq!(merged.get("accept").unwrap(), "application/json");
    assert_eq!(merged.get("x-run").unwrap(), "1");
    assert_eq!(global.get("accept").unwrap(), "text/plain");
}

// --- planning ---

#[test]
fn single_target_is_planned_as_one_step() {
    let s = Settings { body: Some("{}".to_string()), ..settings_for("POST http://localhost:3000") };
    let (headers, steps) = plan_run(&s).unwrap();
    assert!(headers.is_empty());
    assert_eq!(steps.len(), 1);
    assert_eq!(steps[0].operation, Operation::Post);
    assert_eq!(steps[0].url, "http://localhost:3000");
    let prepared = prepare_request_at(&steps[0], 0, 0, 1, 1).unwrap().unwrap();
    assert_eq!(prepared.0, "http://localhost:3000/");
    assert_eq!(steps[0].body, Some("{}".to_string()));
    assert!(steps[0].extra_headers.is_empty());
}

#[test]
fn unparsable_target_is_refused() {
    let s = settings_for("not a url");
    let e = plan_run(&s).unwrap_err();
    assert!(matches!(&e, RunError::InvalidUrl { url } if url == "a"));
    assert_eq!(e.message(), "Invalid URL: a");
}

#[test]
fn steps_are_resolved_in_order() {
    let steps = vec![
        step("GET http://a.test/one", None),
        step("DELETE http://b.test/two", Some(vec![header("X-Step", "2")])),
    ];
    let r = resolve_steps(&steps).unwrap();
    assert_eq!(r.len(), 2);
    assert_eq!(r[0].operation, Operation::Get);
    assert_eq!(r[0].url, "http://a.test/one");
    assert_eq!(r[1].operation, Operation::Delete);
    assert_eq!(r[1].extra_headers.get("x-step").unwrap(), "2");
}

#[test]
fn bad_step_url_and_headers_are_refused() {
    let steps = vec![step("http://ok.test/", None), step("GET :bad", None)];
    let e = resolve_steps(&steps).unwrap_err();
    assert_eq!(e.message(), "Invalid URL in step: :bad");
    let steps = vec![step("http://ok.test/", Some(vec![header("a b", "v")]))];
    let e = resolve_steps(&steps).unwrap_err();
    assert_eq!(e.message(), "Invalid headers in step 'http://ok.test/'");
    assert!(matches!(e, RunError::InvalidStepHeaders { cause: HeaderError::InvalidName { .. }, .. }));
}

#[test]
fn header_problem_comes_before_url_problem() {
    let s = Settings { headers: Some(vec![header("", "v")]), ..settings_for("nope") };
    let e = plan_run(&s).unwrap_err();
    assert!(matches!(e, RunError::Headers { .. }));
    assert_eq!(e.message(), "Failed to build request headers");
}

// --- one request ---

fn resolved(url: &str, body: Option<&str>) -> ResolvedStep {
    let s = Settings { body: body.map(|b| b.to_string()), ..settings_for(url) };
    plan_run(&s).unwrap().1.remove(0)
}

#[test]
fn request_is_prepared_with_variables_filled_in() {
    let st = resolved("http://x.test/items?seq={{seq}}", Some("{\"c\": {{client}}}"));
    let r = prepare_request_at(&st, 4, 3, 100, 200).unwrap().unwrap();
    assert_eq!(r.0, "http://x.test/items?seq=4");
    assert_eq!(r.1, Some("{\"c\": 3}".to_string()));
}

#[test]
fn request_without_body_has_none() {
    let st = resolved("http://x.test/", None);
    assert_eq!(prepare_request_at(&st, 0, 0, 1, 1), Some(Ok(("http://x.test/".to_string(), None))));
}

#[test]
fn status_of_a_response_is_its_status_line() {
    assert_eq!(response_status(&RequestOutcome::Response { code: 200 }), "200 OK");
    assert_eq!(response_status(&RequestOutcome::Response { code: 404 }), "404 Not Found");
    assert_eq!(response_status(&RequestOutcome::Failure { code: Some(503) }), "503 Service Unavailable");
    assert_eq!(response_status(&RequestOutcome::Failure { code: None }), "Failed to connect");
    assert_eq!(response_status(&RequestOutcome::Response { code: 599 }), "599 <unknown status code>");
}

// --- worker schedule ---

#[test]
fn counting_worker_sends_its_share_cycling_steps() {
    let s = Settings { clients: 3, requests: 10, ..settings_for("http://x/") };
    let mut w = Worker::new(&s, 2, 2);
    assert_eq!(w.mode, WorkerMode::Iterations { total: 3 });
    let mut sent = vec![];
    loop {
        match w.next(0) {
            WorkerAction::Send { step, execution } => sent.push((step, execution)),
            WorkerAction::Finish => break,
        }
    }
    assert_eq!(sent, vec![(0, 0), (1, 1), (0, 2)]);
    assert_eq!(w.next(0), WorkerAction::Finish);
}

#[test]
fn timed_worker_stops_when_time_is_up() {
    let s = Settings { duration: Some(2), ..settings_for("http://x/") };
    let mut w = Worker::new(&s, 3, 0);
    assert_eq!(w.mode, WorkerMode::Timed { secs: 2 });
    assert_eq!(w.next(0), WorkerAction::Send { step: 0, execution: 0 });
    assert_eq!(w.next(1), WorkerAction::Send { step: 1, execution: 1 });
    assert_eq!(w.next(1), WorkerAction::Send { step: 2, execution: 2 });
    assert_eq!(w.next(1), WorkerAction::Send { step: 0, execution: 3 });
    assert_eq!(w.next(2), WorkerAction::Finish);
}

#[test]
fn stopped_worker_sends_nothing() {
    let s = settings_for("http://x/");
    let mut w = Worker::new(&s, 1, 0);
    assert_eq!(w.next(0), WorkerAction::Send { step: 0, execution: 0 });
    w.stop();
    assert_eq!(w.next(0), WorkerAction::Finish);
}

#[test]
fn channel_capacity_is_two_per_worker_up_to_4096() {
    assert_eq!(channel_capacity(0), 0);
    assert_eq!(channel_capacity(10), 20);
    assert_eq!(channel_capacity(2048), 4096);
    assert_eq!(channel_capacity(u32::MAX), 4096);
}

// --- report pieces ---

#[test]
fn status_lines_show_only_classes_that_occurred() {
    let bd = StatusBreakdown { success: 3, client_error: 0, server_error: 1, network_error: 2, other: 0 };
    assert_eq!(status_lines(&bd), vec!["  2xx  3", "  5xx  1", "  network errors  2"]);
    let bd = StatusBreakdown { success: 0, client_error: 0, server_error: 0, network_error: 0, other: 0 };
    assert_eq!(status_lines(&bd), vec!["  2xx  0"]);
}

#[test]
fn padding_matches_format_width() {
    assert_eq!(pad_right("ab", 4), format!("{:<4}", "ab"));
    assert_eq!(pad_left("ab", 4), format!("{:>4}", "ab"));
    assert_eq!(pad_left("abcdef", 4), "abcdef");
    assert_eq!(text_row("Min", "5 ms"), format!("{:<20} {}", "Min", "5 ms"));
}

// --- mcp request ---

#[test]
fn mcp_request_with_no_clients_is_refused() {
    let req = BenchmarkRequest {
        target: "http://localhost:3000/".to_string(),
        clients: 0,
        requests: None,
        duration_secs: None,
        body: None,
        headers: None,
        http2: None,
        ramp_up: None,
        timeout_ms: None,
        insecure: None,
        rps: None,
    };
    assert_eq!(req.clone().checked_settings().unwrap_err(), SettingsError::NoClients);
    let ok = BenchmarkRequest { clients: 4, ..req }.checked_settings().unwrap();
    assert_eq!(ok.clients, 4);
    assert_eq!(ok.requests, 1);
}

#[test]
fn status_entries_list_labels_and_counts() {
    let bd = StatusBreakdown { success: 1, client_error: 2, server_error: 0, network_error: 0, other: 4 };
    assert_eq!(
        goku::benchmark::status_entries(&bd),
        vec![("2xx".to_string(), 1), ("4xx".to_string(), 2), ("other".to_string(), 4)]
    );
}

#[test]
fn client_config_follows_keepalive_choice() {
    let s = Settings {
        keep_alive: Some(Duration::from_secs(5)),
        pool_idle_timeout: Some(30),
        ..settings_for("http://x/")
    };
    let c = goku::execution::client_config(&s);
    assert_eq!(c.tcp_keepalive, Some(Duration::from_secs(5)));
    assert_eq!(c.pool_idle_secs, 30);
    assert_eq!(c.max_idle_per_host, 2);
    let c = goku::execution::client_config(&Settings { disable_keepalive: true, ..s.clone() });
    assert_eq!(c.tcp_keepalive, None);
    assert_eq!(c.pool_idle_secs, 0);
    let c = goku::execution::client_config(&Settings { pool_idle_timeout: None, ..s });
    assert_eq!(c.pool_idle_secs, 90);
}

#[test]
fn recorded_status_lines_are_classified_by_their_code() {
    let mut r = Report::new(1);
    for code in [200u16, 204, 301, 404, 500, 650] {
        r.add_result(BenchmarkResult {
            status: response_status(&RequestOutcome::Response { code }),
            duration: 1,
            num_client: 0,
            execution: 0,
            timestamp_ms: 0,
        });
    }
    let bd = r.status_breakdown();
    assert_eq!(bd.success, 2);
    assert_eq!(bd.other, 2);
    assert_eq!(bd.client_error, 1);
    assert_eq!(bd.server_error, 1);
    assert_eq!(bd.network_error, 0);
}

#[test]
fn checked_histogram_refuses_only_overflowing_bounds() {
    let mut r = Report::new(1);
    for d in [10u64, 20, 30, 40, 50] {
        r.add_result(BenchmarkResult { status: "200 OK".to_string(), duration: d, num_client: 0, execution: 0, timestamp_ms: 0 });
    }
    assert_eq!(r.checked_latency_histogram(5), Some(r.latency_histogram(5)));
    let mut big = Report::new(1);
    for d in [u64::MAX - 10, u64::MAX] {
        big.add_result(BenchmarkResult { status: "200 OK".to_string(), duration: d, num_client: 0, execution: 0, timestamp_ms: 0 });
    }
    assert_eq!(big.checked_latency_histogram(3), None);
}

#[test]
fn prepared_request_without_templates_does_not_depend_on_the_clock() {
    let st = resolved("http://x.test/a", Some("plain"));
    assert_eq!(
        goku::execution::prepare_request(&st, 1, 1),
        Some(Ok(("http://x.test/a".to_string(), Some("plain".to_string()))))
    );
}

#[test]
fn url_that_breaks_after_substitution_is_recorded_as_a_status() {
    let st = resolved("http://x.test/?q={{random_int(1,1)}}", None);
    let r = prepare_request_at(&st, 0, 0, 5, 5).unwrap().unwrap();
    assert_eq!(r.0, "http://x.test/?q=1");
    let mut st2 = resolved("http://x.test/", None);
    st2.url = "http://[{{seq}}/".to_string();
    let e = prepare_request_at(&st2, 0, 0, 5, 5).unwrap().unwrap_err();
    assert!(e.starts_with("Invalid URL after substitution: "));
}

#[test]
fn auth_header_is_sent_even_over_a_configured_one() {
    let s = Settings {
        headers: Some(vec![header("Authorization", "Token abc")]),
        auth: Some(Auth::Basic { user: "admin".to_string(), password: "pass".to_string() }),
        ..settings_for("http://x/")
    };
    let map = build_headers(&s).unwrap();
    assert_eq!(map.len(), 1);
    assert_eq!(map.get("authorization").unwrap(), "Basic YWRtaW46cGFzcw==");
}

#[test]
fn shares_of_all_workers_add_up_to_the_requests() {
    let s = Settings { clients: 3, requests: 10, ..settings_for("http://x/") };
    let shares: Vec<u32> = (0..3).map(|id| s.requests_for_client(id)).collect();
    assert_eq!(shares, vec![4, 3, 3]);
    let mut total = 0;
    for id in 0..3usize {
        let mut w = Worker::new(&s, 1, id);
        while let WorkerAction::Send { .. } = w.next(0) {
            total += 1;
        }
    }
    assert_eq!(total, 10);
    let s = Settings { clients: 2, requests: 10, ..settings_for("http://x/") };
    assert_eq!(s.requests_for_client(0) + s.requests_for_client(1), 10);
}

#[test]
fn placeholders_in_a_url_path_are_filled_in() {
    let st = resolved("GET http://localhost:3000/users/{{seq}}", None);
    assert_eq!(st.url, "http://localhost:3000/users/{{seq}}");
    let a = prepare_request_at(&st, 0, 0, 1, 1).unwrap().unwrap();
    let b = prepare_request_at(&st, 1, 0, 1, 1).unwrap().unwrap();
    assert_eq!(a.0, "http://localhost:3000/users/0");
    assert_eq!(b.0, "http://localhost:3000/users/1");
}

#[test]
fn global_headers_are_left_out_when_steps_exist() {
    let s = Settings {
        headers: Some(vec![header("X-Global", "1")]),
        steps: vec![step("GET http://a.test/", None)],
        ..settings_for("")
    };
    let (headers, steps) = plan_run(&s).unwrap();
    assert!(headers.get("x-global").is_none());
    let merged = merge_headers(&headers, &steps[0].extra_headers);
    assert!(merged.is_empty());
    let s = Settings { auth: Some(Auth::Bearer { token: "t".to_string() }), ..s };
    let (headers, _) = plan_run(&s).unwrap();
    assert_eq!(headers.len(), 1);
    assert_eq!(headers.get("authorization").unwrap(), "Bearer t");
}

#[test]
fn post_with_body_and_headers_is_planned_and_prepared() {
    let s = Settings {
        headers: Some(vec![header("X-Custom", "test")]),
        body: Some("{\"key\":\"value\"}".to_string()),
        clients: 1,
        requests: 5,
        ..settings_for("POST http://127.0.0.1:8080/submit")
    };
    assert_eq!(s.validate(), Ok(()));
    let (headers, steps) = plan_run(&s).unwrap();
    assert_eq!(steps[0].operation, Operation::Post);
    let merged = merge_headers(&headers, &steps[0].extra_headers);
    assert_eq!(merged.get("x-custom").unwrap(), "test");
    let (url, body) = prepare_request_at(&steps[0], 0, 0, 1, 1).unwrap().unwrap();
    assert_eq!(url, "http://127.0.0.1:8080/submit");
    assert_eq!(body, Some("{\"key\":\"value\"}".to_string()));
    let mut w = Worker::new(&s, steps.len(), 0);
    let mut sent = 0;
    while let WorkerAction::Send { .. } = w.next(0) {
        sent += 1;
    }
    assert_eq!(sent, 5);
}

#[test]
fn multi_step_scenario_cycles_through_steps() {
    let s = Settings {
        clients: 1,
        requests: 4,
        steps: vec![
            step("GET http://a.test/users", None),
            step("POST http://a.test/orders", Some(vec![header("Content-Type", "application/json")])),
        ],
        ..settings_for("")
    };
    assert_eq!(s.validate(), Ok(()));
    let (_, steps) = plan_run(&s).unwrap();
    let mut w = Worker::new(&s, steps.len(), 0);
    let mut ops = vec![];
    while let WorkerAction::Send { step, .. } = w.next(0) {
        ops.push(steps[step].operation);
    }
    assert_eq!(ops, vec![Operation::Get, Operation::Post, Operation::Get, Operation::Post]);
}

#[test]
fn live_stats_of_zero_seconds_are_off() {
    use_live(Some(0), None);
    use_live(None, None);
    use_live(Some(5), Some(5));
}

fn use_live(given: Option<u64>, want: Option<u64>) {
    assert_eq!(goku::execution::live_stats_interval(given), want);
}
