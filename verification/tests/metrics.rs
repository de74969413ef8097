use hls_vod::metrics::Metrics;

#[test]
fn test_metrics_creation() {
    let metrics = Metrics::new();
    assert!(metrics.uptime_secs() < 2);
}

#[test]
fn test_record_request() {
    let mut metrics = Metrics::new();
    metrics.record_request("/test");
    metrics.record_request("/test");
    assert_eq!(metrics.request_count, 2);
    assert_eq!(metrics.endpoint_requests("/test"), Some(2));
}

#[test]
fn test_cache_metrics() {
    let mut metrics = Metrics::new();
    metrics.record_cache_hit();
    metrics.record_cache_hit();
    metrics.record_cache_miss();
    assert_eq!(metrics.cache_hits, 2);
    assert_eq!(metrics.cache_misses, 1);
}

#[test]
fn test_export_prometheus() {
    let mut metrics = Metrics::new();
    metrics.record_request("/test");
    metrics.record_cache_hit();
    let output = metrics.export_prometheus();
    assert!(output.contains("hls_requests_total"));
    assert!(output.contains("hls_cache_hits_total"));
    assert!(output.contains("hls_server_uptime_seconds"));
}

#[test]
fn test_error_recording() {
    let mut metrics = Metrics::new();
    metrics.record_error("stream_not_found");
    metrics.record_error("stream_not_found");
    metrics.record_error("segment_not_found");
    assert_eq!(metrics.error_count("stream_not_found"), Some(2));
    assert_eq!(metrics.error_count("segment_not_found"), Some(1));
}

#[test]
fn prometheus_text_exact() {
    let mut metrics = Metrics::new();
    metrics.record_request("/a");
    metrics.record_request("/b");
    metrics.record_request("/a");
    metrics.record_bytes(1024);
    metrics.record_cache_hit();
    metrics.record_cache_miss();
    metrics.record_cache_miss();
    metrics.set_active_streams(3);
    metrics.record_transcode();
    metrics.record_error("x");
    let text = metrics.render_prometheus(5, 1000);
    let expected = "# HELP hls_server_uptime_seconds Server uptime in seconds\n\
# TYPE hls_server_uptime_seconds counter\n\
hls_server_uptime_seconds 5\n\
\n# HELP hls_server_start_time_seconds Server start time as Unix timestamp\n\
# TYPE hls_server_start_time_seconds gauge\n\
hls_server_start_time_seconds 995\n\
\n# HELP hls_requests_total Total number of HTTP requests\n\
# TYPE hls_requests_total counter\n\
hls_requests_total 3\n\
\n# HELP hls_requests_by_endpoint Requests by endpoint\n\
# TYPE hls_requests_by_endpoint counter\n\
hls_requests_by_endpoint{endpoint=\"/a\"} 2\n\
hls_requests_by_endpoint{endpoint=\"/b\"} 1\n\
\n# HELP hls_bytes_served_total Total bytes served\n\
# TYPE hls_bytes_served_total counter\n\
hls_bytes_served_total 1024\n\
\n# HELP hls_cache_hits_total Total cache hits\n\
# TYPE hls_cache_hits_total counter\n\
hls_cache_hits_total 1\n\
\n# HELP hls_cache_misses_total Total cache misses\n\
# TYPE hls_cache_misses_total counter\n\
hls_cache_misses_total 2\n\
\n# HELP hls_cache_hit_ratio Cache hit ratio\n\
# TYPE hls_cache_hit_ratio gauge\n\
hls_cache_hit_ratio 0.3333\n\
\n# HELP hls_active_streams Number of active streams\n\
# TYPE hls_active_streams gauge\n\
hls_active_streams 3\n\
\n# HELP hls_transcode_operations_total Total transcoding operations\n\
# TYPE hls_transcode_operations_total counter\n\
hls_transcode_operations_total 1\n\
\n# HELP hls_errors_total Total errors by type\n\
# TYPE hls_errors_total counter\n\
hls_errors_total{type=\"x\"} 1\n";
    assert_eq!(text, expected);
}

#[test]
fn hit_ratio_edges() {
    let mut metrics = Metrics::new();
    assert!(metrics.render_prometheus(0, 0).contains("hls_cache_hit_ratio 0.0000\n"));
    metrics.record_cache_hit();
    assert!(metrics.render_prometheus(0, 0).contains("hls_cache_hit_ratio 1.0000\n"));
    metrics.record_cache_miss();
    metrics.record_cache_miss();
    assert!(metrics.render_prometheus(0, 0).contains("hls_cache_hit_ratio 0.3333\n"));
    metrics.record_cache_hit();
    assert!(metrics.render_prometheus(0, 0).contains("hls_cache_hit_ratio 0.5000\n"));
}

#[test]
fn every_metric_has_a_type_line() {
    let mut metrics = Metrics::new();
    metrics.record_error("decode");
    let output = metrics.render_prometheus(5, 100);
    for name in [
        "hls_server_uptime_seconds",
        "hls_requests_total",
        "hls_bytes_served_total",
        "hls_cache_hits_total",
        "hls_cache_misses_total",
        "hls_cache_hit_ratio",
        "hls_active_streams",
        "hls_transcode_operations_total",
        "hls_errors_total",
    ] {
        assert!(output.contains(&format!("\n# TYPE {} ", name)), "{}", name);
    }
}

fn ratio_line(hits: u64, misses: u64) -> String {
    let mut metrics = Metrics::new();
    metrics.cache_hits = hits;
    metrics.cache_misses = misses;
    let out = metrics.render_prometheus(0, 0);
    let start = out.find("\nhls_cache_hit_ratio ").unwrap();
    let rest = &out[start + 1..];
    rest[..rest.find('\n').unwrap()].to_string()
}

fn float_ratio_line(hits: u64, misses: u64) -> String {
    let ratio = if hits + misses > 0 { hits as f64 / (hits + misses) as f64 } else { 0.0 };
    format!("hls_cache_hit_ratio {:.4}", ratio)
}

#[test]
fn hit_ratio_prints_as_the_float_quotient() {
    assert_eq!(ratio_line(3, 19997), "hls_cache_hit_ratio 0.0001");
    assert_eq!(ratio_line(1, 31), "hls_cache_hit_ratio 0.0312");
    assert_eq!(ratio_line(3, 29), "hls_cache_hit_ratio 0.0938");
    for hits in 0..80u64 {
        for misses in 0..80u64 {
            assert_eq!(ratio_line(hits, misses), float_ratio_line(hits, misses), "{} {}", hits, misses);
        }
    }
    let big = [
        (3u64, 19997u64),
        (1, 20001),
        (5, 99995),
        (1u64 << 53, 1),
        ((1u64 << 53) + 1, 3),
        (u64::MAX / 2, u64::MAX / 2),
        (u64::MAX - 5, 5),
        (u64::MAX / 3, u64::MAX / 3 * 2),
        (12345678901234567, 98765432109876543),
        (1, u64::MAX - 1),
        (7, 70_000_000_000_000_000),
        (3, 20000 - 3),
        (15, 100000 - 15),
        (1, 7),
        (1 << 40, (1 << 45) - (1 << 40)),
    ];
    for (hits, misses) in big {
        assert_eq!(ratio_line(hits, misses), float_ratio_line(hits, misses), "{} {}", hits, misses);
    }
}

#[test]
fn hit_ratio_within_a_ten_thousandth() {
    for (hits, misses) in [(1u64, 2u64), (2, 1), (3, 19997), (1, 31), (7, 13), (12345, 67890), (1, 0), (0, 5)] {
        let line = ratio_line(hits, misses);
        let text = line.trim_start_matches("hls_cache_hit_ratio ");
        let (whole, frac) = text.split_once('.').unwrap();
        let k: i128 = whole.parse::<i128>().unwrap() * 10000 + frac.parse::<i128>().unwrap();
        let n = (hits + misses) as i128;
        assert!((k * n - 10000 * hits as i128).abs() < n, "{} {}", hits, misses);
    }
}
