use request_metrics::counter::LabeledCounter;
use request_metrics::exposition::{write_dec, write_secs};
use request_metrics::labels::LabelSet;
use request_metrics::middleware::{MetricsError, RequestMetadata, RequestMetrics};
use request_metrics::status::{classify, StatusClass};
use request_metrics::users::UserRepository;

fn labels(path: &str, method: &str, status: u16) -> LabelSet {
    LabelSet::new(path.to_string(), method.to_string(), status)
}

fn class_value(m: &RequestMetrics, c: StatusClass, l: &LabelSet) -> u64 {
    m.counter(c).unwrap().get(l)
}

#[test]
fn classify_ranges() {
    assert_eq!(classify(200), StatusClass::Success);
    assert_eq!(classify(299), StatusClass::Success);
    assert_eq!(classify(400), StatusClass::ClientError);
    assert_eq!(classify(404), StatusClass::ClientError);
    assert_eq!(classify(499), StatusClass::ClientError);
    assert_eq!(classify(500), StatusClass::ServerError);
    assert_eq!(classify(599), StatusClass::ServerError);
    assert_eq!(classify(100), StatusClass::Unclassified);
    assert_eq!(classify(302), StatusClass::Unclassified);
    assert_eq!(classify(600), StatusClass::Unclassified);
}

#[test]
fn post_users_counts_one_success() {
    let mut m = RequestMetadata {}.new_transform();
    let l = labels("/users", "POST", 200);
    assert_eq!(m.record(&l, 12), Ok(StatusClass::Success));
    assert_eq!(class_value(&m, StatusClass::Success, &l), 1);
    assert_eq!(m.requests_total(), 1);
    assert_eq!(class_value(&m, StatusClass::ClientError, &l), 0);
    assert_eq!(class_value(&m, StatusClass::ServerError, &l), 0);
}

#[test]
fn not_found_counts_client_error() {
    let mut m = RequestMetrics::new();
    let l = labels("/nowhere", "GET", 404);
    assert_eq!(m.record(&l, 1), Ok(StatusClass::ClientError));
    assert_eq!(m.requests_total(), 1);
    assert_eq!(class_value(&m, StatusClass::ClientError, &l), 1);
    assert_eq!(class_value(&m, StatusClass::Success, &l), 0);
    assert_eq!(class_value(&m, StatusClass::ServerError, &l), 0);
}

#[test]
fn server_error_counts_in_5xx_only() {
    let mut m = RequestMetrics::new();
    let l = labels("/users", "POST", 503);
    assert_eq!(m.record(&l, 1), Ok(StatusClass::ServerError));
    assert_eq!(class_value(&m, StatusClass::ServerError, &l), 1);
    assert_eq!(class_value(&m, StatusClass::ClientError, &l), 0);
    assert_eq!(class_value(&m, StatusClass::Success, &l), 0);
}

#[test]
fn redirect_counts_only_in_total() {
    let mut m = RequestMetrics::new();
    let l = labels("/old", "GET", 302);
    assert_eq!(m.record(&l, 0), Ok(StatusClass::Unclassified));
    assert_eq!(m.requests_total(), 1);
    assert!(m.counter(StatusClass::Unclassified).is_none());
    assert_eq!(m.counter(StatusClass::Success).unwrap().len(), 0);
    assert_eq!(m.counter(StatusClass::ClientError).unwrap().len(), 0);
    assert_eq!(m.counter(StatusClass::ServerError).unwrap().len(), 0);
    assert_eq!(m.duration_histogram().get(&l).count, 1);
}

#[test]
fn thousand_health_checks_are_all_counted() {
    let mut m = RequestMetrics::new();
    let l = labels("/healthz", "GET", 200);
    for _ in 0..1000 {
        assert!(m.record(&l, 2).is_ok());
    }
    assert_eq!(m.requests_total(), 1000);
    assert_eq!(class_value(&m, StatusClass::Success, &l), 1000);
    let s = m.duration_histogram().get(&l);
    assert_eq!(s.count, 1000);
    assert_eq!(s.sum_ms, 2000);
}

#[test]
fn series_are_kept_apart_by_labels() {
    let mut m = RequestMetrics::new();
    let a = labels("/users", "POST", 200);
    let b = labels("/users", "GET", 200);
    let c = labels("/users", "POST", 201);
    m.record(&a, 1).unwrap();
    m.record(&b, 1).unwrap();
    m.record(&a, 1).unwrap();
    m.record(&c, 1).unwrap();
    assert_eq!(class_value(&m, StatusClass::Success, &a), 2);
    assert_eq!(class_value(&m, StatusClass::Success, &b), 1);
    assert_eq!(class_value(&m, StatusClass::Success, &c), 1);
    assert_eq!(m.counter(StatusClass::Success).unwrap().len(), 3);
    assert_eq!(m.requests_total(), 4);
}

#[test]
fn one_duration_observation_per_request() {
    let mut m = RequestMetrics::new();
    let l = labels("/users", "POST", 200);
    m.record(&l, 7).unwrap();
    m.record(&l, 150).unwrap();
    let h = m.duration_histogram();
    assert_eq!(h.bucket_bounds(), &vec![5, 10, 20, 50, 100, 200, 500, 700, 1000, 2000]);
    let s = h.get(&l);
    assert_eq!(s.count, 2);
    assert_eq!(s.sum_ms, 157);
    assert_eq!(s.le, vec![0, 1, 1, 1, 1, 2, 2, 2, 2, 2]);
    let other = h.get(&labels("/healthz", "GET", 200));
    assert_eq!(other.count, 0);
    assert_eq!(other.le, vec![0; 10]);
}

#[test]
fn bucket_bound_is_inclusive() {
    let mut m = RequestMetrics::new();
    let l = labels("/", "GET", 200);
    m.record(&l, 5).unwrap();
    assert_eq!(m.duration_histogram().get(&l).le, vec![1; 10]);
}

#[test]
fn complete_returns_response_untouched() {
    let mut m = RequestMetrics::new();
    let body = "{\"message\":\"healthy\"}".to_string();
    let (out, outcome) = m.complete(body.clone(), &labels("/healthz", "GET", 200), 3);
    assert_eq!(out, body);
    assert_eq!(outcome, Ok(StatusClass::Success));
    assert_eq!(m.requests_total(), 1);
}

#[test]
fn complete_returns_response_even_on_overflow() {
    let mut m = RequestMetrics::new();
    let l = labels("/slow", "GET", 200);
    m.record(&l, u64::MAX).unwrap();
    let (out, outcome) = m.complete(vec![1u8, 2, 3], &l, 1);
    assert_eq!(out, vec![1u8, 2, 3]);
    assert_eq!(outcome, Err(MetricsError::Overflow));
}

#[test]
fn overflow_changes_nothing() {
    let mut m = RequestMetrics::new();
    let l = labels("/slow", "GET", 500);
    m.record(&l, u64::MAX).unwrap();
    assert_eq!(m.record(&l, 1), Err(MetricsError::Overflow));
    assert_eq!(m.requests_total(), 1);
    assert_eq!(class_value(&m, StatusClass::ServerError, &l), 1);
    assert_eq!(m.duration_histogram().get(&l).count, 1);
    assert_eq!(m.record(&labels("/fast", "GET", 500), 0), Ok(StatusClass::ServerError));
}

#[test]
fn counter_add_and_overflow() {
    let mut c = LabeledCounter::new();
    let l = labels("/", "GET", 200);
    assert_eq!(c.get(&l), 0);
    assert!(c.add(&l, 3));
    assert!(c.add(&l, 4));
    assert_eq!(c.get(&l), 7);
    assert!(!c.add(&l, u64::MAX));
    assert_eq!(c.get(&l), 7);
    let (k, v) = c.entry(0);
    assert_eq!(k.path, "/");
    assert_eq!(v, 7);
}

#[test]
fn decimal_and_seconds_text() {
    let mut s = String::new();
    write_dec(&mut s, 0);
    s.push(' ');
    write_dec(&mut s, 1234567890);
    assert_eq!(s, "0 1234567890");
    let cases: [(u64, &str); 7] = [
        (5, "0.005"),
        (10, "0.01"),
        (700, "0.7"),
        (1000, "1"),
        (2000, "2"),
        (12345, "12.345"),
        (0, "0"),
    ];
    for (ms, text) in cases {
        let mut t = String::new();
        write_secs(&mut t, ms);
        assert_eq!(t, text);
    }
}

#[test]
fn empty_exposition() {
    let m = RequestMetrics::new();
    let expected = "# TYPE http_requests_2xx_total counter\n\
# TYPE http_requests_4xx_total counter\n\
# TYPE http_requests_5xx_total counter\n\
# TYPE http_requests_duration_seconds histogram\n\
# TYPE http_requests_total counter\n\
http_requests_total 0\n";
    assert_eq!(m.render(), expected);
}

#[test]
fn exposition_reflects_prior_requests() {
    let mut m = RequestMetrics::new();
    m.record(&labels("/users", "POST", 200), 12).unwrap();
    m.record(&labels("/x", "GET", 404), 1).unwrap();
    let text = m.render();
    let expected_lines = [
        "# TYPE http_requests_2xx_total counter",
        "http_requests_2xx_total{path=\"/users\",method=\"POST\",status=\"200\"} 1",
        "# TYPE http_requests_4xx_total counter",
        "http_requests_4xx_total{path=\"/x\",method=\"GET\",status=\"404\"} 1",
        "# TYPE http_requests_5xx_total counter",
        "# TYPE http_requests_duration_seconds histogram",
        "http_requests_duration_seconds_bucket{path=\"/users\",method=\"POST\",status=\"200\",le=\"0.005\"} 0",
        "http_requests_duration_seconds_bucket{path=\"/users\",method=\"POST\",status=\"200\",le=\"0.01\"} 0",
        "http_requests_duration_seconds_bucket{path=\"/users\",method=\"POST\",status=\"200\",le=\"0.02\"} 1",
        "http_requests_duration_seconds_bucket{path=\"/users\",method=\"POST\",status=\"200\",le=\"0.05\"} 1",
        "http_requests_duration_seconds_bucket{path=\"/users\",method=\"POST\",status=\"200\",le=\"0.1\"} 1",
        "http_requests_duration_seconds_bucket{path=\"/users\",method=\"POST\",status=\"200\",le=\"0.2\"} 1",
        "http_requests_duration_seconds_bucket{path=\"/users\",method=\"POST\",status=\"200\",le=\"0.5\"} 1",
        "http_requests_duration_seconds_bucket{path=\"/users\",method=\"POST\",status=\"200\",le=\"0.7\"} 1",
        "http_requests_duration_seconds_bucket{path=\"/users\",method=\"POST\",status=\"200\",le=\"1\"} 1",
        "http_requests_duration_seconds_bucket{path=\"/users\",method=\"POST\",status=\"200\",le=\"2\"} 1",
        "http_requests_duration_seconds_bucket{path=\"/users\",method=\"POST\",status=\"200\",le=\"+Inf\"} 1",
        "http_requests_duration_seconds_sum{path=\"/users\",method=\"POST\",status=\"200\"} 0.012",
        "http_requests_duration_seconds_count{path=\"/users\",method=\"POST\",status=\"200\"} 1",
    ];
    let lines: Vec<&str> = text.lines().collect();
    assert_eq!(&lines[..expected_lines.len()], &expected_lines[..]);
    assert!(text.contains("http_requests_duration_seconds_sum{path=\"/x\",method=\"GET\",status=\"404\"} 0.001\n"));
    assert!(text.ends_with("# TYPE http_requests_total counter\nhttp_requests_total 2\n"));
    for line in text.lines() {
        if !line.starts_with('#') {
            let value = line.rsplit(' ').next().unwrap();
            assert!(value.parse::<f64>().is_ok(), "{}", line);
        }
    }
}

#[test]
fn label_set_equality() {
    let a = labels("/users", "POST", 200);
    assert!(a.same_as(&a.duplicate()));
    assert!(!a.same_as(&labels("/users", "POST", 201)));
    assert!(!a.same_as(&labels("/users", "GET", 200)));
    assert!(!a.same_as(&labels("/user", "POST", 200)));
}

#[test]
fn user_repository_new() {
    let r = UserRepository::new();
    assert_eq!(format!("{:?}", r), "UserRepository");
}

#[test]
fn exposition_sorts_series_by_labels() {
    let mut m = RequestMetrics::new();
    m.record(&labels("/b", "GET", 200), 1).unwrap();
    m.record(&labels("/a", "POST", 200), 1).unwrap();
    m.record(&labels("/a", "GET", 201), 1).unwrap();
    m.record(&labels("/a", "GET", 200), 1).unwrap();
    let text = m.render();
    let counter_lines: Vec<&str> = text
        .lines()
        .filter(|l| l.starts_with("http_requests_2xx_total{"))
        .collect();
    assert_eq!(
        counter_lines,
        vec![
            "http_requests_2xx_total{path=\"/a\",method=\"GET\",status=\"200\"} 1",
            "http_requests_2xx_total{path=\"/a\",method=\"GET\",status=\"201\"} 1",
            "http_requests_2xx_total{path=\"/a\",method=\"POST\",status=\"200\"} 1",
            "http_requests_2xx_total{path=\"/b\",method=\"GET\",status=\"200\"} 1",
        ]
    );
    let count_lines: Vec<&str> = text
        .lines()
        .filter(|l| l.starts_with("http_requests_duration_seconds_count{"))
        .collect();
    assert_eq!(count_lines.len(), 4);
    assert!(count_lines[0].contains("path=\"/a\",method=\"GET\",status=\"200\""));
    assert!(count_lines[3].contains("path=\"/b\""));
}

#[test]
fn label_order_puts_prefix_first() {
    assert!(labels("/a", "GET", 200).precedes(&labels("/ab", "GET", 200)));
    assert!(!labels("/ab", "GET", 200).precedes(&labels("/a", "GET", 200)));
    assert!(labels("/a", "GET", 200).precedes(&labels("/a", "GET", 404)));
    assert!(!labels("/a", "GET", 200).precedes(&labels("/a", "GET", 200)));
    assert!(labels("/z", "GET", 200).precedes(&labels("/\u{e9}", "GET", 200)));
}

#[test]
fn exposition_escapes_label_values() {
    let mut m = RequestMetrics::new();
    m.record(&labels("/a\"b\\c\nd", "GET", 404), 1).unwrap();
    let text = m.render();
    assert!(text.contains("http_requests_4xx_total{path=\"/a\\\"b\\\\c\\nd\",method=\"GET\",status=\"404\"} 1\n"));
}
