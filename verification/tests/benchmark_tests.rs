use goku::benchmark::{results_log_text, BenchmarkResult, Metrics, Report, StatusBreakdown};

fn make_result(duration: u64, status: &str) -> BenchmarkResult {
    BenchmarkResult {
        status: status.to_string(),
        duration,
        num_client: 0,
        execution: 0,
        timestamp_ms: 0,
    }
}

// --- Metrics trait ---

#[test]
fn avg_empty_vec_returns_zero() {
    let v: Vec<BenchmarkResult> = vec![];
    assert_eq!(v.avg(), 0);
}

#[test]
fn min_empty_vec_returns_zero() {
    let v: Vec<BenchmarkResult> = vec![];
    assert_eq!(v.min(), 0);
}

#[test]
fn max_empty_vec_returns_zero() {
    let v: Vec<BenchmarkResult> = vec![];
    assert_eq!(v.max(), 0);
}

#[test]
fn avg_correct_value() {
    let v = vec![make_result(10, "200 OK"), make_result(20, "200 OK"), make_result(30, "200 OK")];
    assert_eq!(v.avg(), 20);
}

#[test]
fn min_correct_value() {
    let v = vec![make_result(5, "200 OK"), make_result(15, "200 OK")];
    assert_eq!(v.min(), 5);
}

#[test]
fn max_correct_value() {
    let v = vec![make_result(5, "200 OK"), make_result(15, "200 OK")];
    assert_eq!(v.max(), 15);
}

// --- StatusBreakdown ---

#[test]
fn status_breakdown_counts_correctly() {
    let mut report = Report::new(1);
    report.add_result(make_result(10, "200 OK"));
    report.add_result(make_result(10, "201 Created"));
    report.add_result(make_result(10, "404 Not Found"));
    report.add_result(make_result(10, "500 Internal Server Error"));
    report.add_result(make_result(10, "Failed to connect"));

    let bd = report.status_breakdown();
    assert_eq!(bd.success, 2);
    assert_eq!(bd.client_error, 1);
    assert_eq!(bd.server_error, 1);
    assert_eq!(bd.network_error, 1);
    assert_eq!(bd.other, 0);
}

#[test]
fn status_breakdown_empty_report() {
    let report = Report::new(1);
    let bd = report.status_breakdown();
    assert_eq!(bd.success, 0);
    assert_eq!(bd.network_error, 0);
}

// --- Report ---

#[test]
fn add_result_increments_histogram() {
    let mut report = Report::new(2);
    report.add_result(make_result(100, "200 OK"));
    report.add_result(make_result(200, "200 OK"));
    assert_eq!(report.hist.samples.len(), 2);
}

#[test]
fn latency_histogram_empty_report() {
    let report = Report::new(1);
    assert!(report.latency_histogram(5).is_empty());
}

#[test]
fn latency_histogram_produces_correct_bucket_count() {
    let mut report = Report::new(1);
    for d in [10, 20, 30, 40, 50] {
        report.add_result(make_result(d, "200 OK"));
    }
    let hist = report.latency_histogram(5);
    assert_eq!(hist.len(), 5);
    let total: u64 = hist.iter().map(|(_, c)| c).sum();
    assert_eq!(total, 5);
}

#[test]
fn results_log_has_header_and_data() {
    let mut r = Report::new(2);
    for (d, s) in [(10, "200 OK"), (20, "200 OK"), (50, "200 OK"), (100, "500 Internal Server Error")] {
        r.add_result(make_result(d, s));
    }
    let s = results_log_text(&r);
    assert!(s.starts_with("timestamp_ms,"));
    let lines: Vec<&str> = s.trim().lines().collect();
    assert_eq!(lines.len(), 5);
}

// --- further cases ---

#[test]
fn results_log_line_format() {
    let mut r = Report::new(1);
    r.add_result(BenchmarkResult {
        status: "404 Not Found".to_string(),
        duration: 7,
        num_client: 3,
        execution: 12,
        timestamp_ms: 1700000000000,
    });
    assert_eq!(
        results_log_text(&r),
        "timestamp_ms,num_client,execution,status,latency_ms\n1700000000000,3,12,404 Not Found,7\n"
    );
}

#[test]
fn status_breakdown_other_classes() {
    let mut report = Report::new(1);
    for s in ["101 Switching", "302 Found", "", "600 odd", "x"] {
        report.add_result(make_result(1, s));
    }
    let bd = report.status_breakdown();
    assert_eq!(
        bd,
        StatusBreakdown { success: 0, client_error: 0, server_error: 0, network_error: 2, other: 3 }
    );
}

#[test]
fn latency_histogram_labels_and_counts() {
    let mut report = Report::new(1);
    for d in [10, 11, 15, 20, 31] {
        report.add_result(make_result(d, "200 OK"));
    }
    // range 21 over 4 buckets: width 6, buckets end at 16, 22, 28, 34
    let hist = report.latency_histogram(4);
    assert_eq!(
        hist,
        vec![
            ("16ms".to_string(), 3),
            ("22ms".to_string(), 1),
            ("28ms".to_string(), 0),
            ("34ms".to_string(), 1)
        ]
    );
}

#[test]
fn latency_histogram_single_value_and_no_buckets() {
    let mut report = Report::new(1);
    report.add_result(make_result(42, "200 OK"));
    report.add_result(make_result(42, "200 OK"));
    assert_eq!(report.latency_histogram(10), vec![("42ms".to_string(), 2)]);
    assert!(report.latency_histogram(0).is_empty());
}

#[test]
fn avg_floors() {
    let v = vec![make_result(1, "200 OK"), make_result(2, "200 OK")];
    assert_eq!(v.avg(), 1);
}
