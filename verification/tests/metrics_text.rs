use paracord::http_layer::{render_metrics, HttpMetrics};

#[test]
fn metrics_exposition_matches_prometheus_layout() {
    let m = HttpMetrics {
        le_5: 1,
        le_10: 2,
        le_25: 3,
        le_50: 4,
        le_100: 5,
        le_250: 6,
        le_500: 7,
        le_1000: 8,
        le_inf: 9,
        sum_us: 1_500_000,
        count: 9,
        status_2xx: 20,
        status_4xx: 4,
        status_5xx: 0,
    };
    let sum = format!("{}", m.sum_us as f64 / 1_000_000.0);
    let by_type = vec![("MESSAGE_CREATE".to_string(), 3u64), ("a\"b".to_string(), 1u64)];
    let body = render_metrics(42, 7, &m, &sum, 2, 11, &by_type);
    let expected = "# HELP paracord_up Whether the server is up.\n\
         # TYPE paracord_up gauge\n\
         paracord_up 1\n\
         # HELP paracord_http_requests_total Total HTTP requests.\n\
         # TYPE paracord_http_requests_total counter\n\
         paracord_http_requests_total 42\n\
         # HELP paracord_http_rate_limited_total Requests rejected by rate limiter.\n\
         # TYPE paracord_http_rate_limited_total counter\n\
         paracord_http_rate_limited_total 7\n\
         # HELP paracord_http_responses_total HTTP responses by status class.\n\
         # TYPE paracord_http_responses_total counter\n\
         paracord_http_responses_total{status_class=\"2xx\"} 20\n\
         paracord_http_responses_total{status_class=\"4xx\"} 4\n\
         paracord_http_responses_total{status_class=\"5xx\"} 0\n\
         # HELP paracord_http_request_duration_seconds HTTP request duration histogram.\n\
         # TYPE paracord_http_request_duration_seconds histogram\n\
         paracord_http_request_duration_seconds_bucket{le=\"0.005\"} 1\n\
         paracord_http_request_duration_seconds_bucket{le=\"0.01\"} 2\n\
         paracord_http_request_duration_seconds_bucket{le=\"0.025\"} 3\n\
         paracord_http_request_duration_seconds_bucket{le=\"0.05\"} 4\n\
         paracord_http_request_duration_seconds_bucket{le=\"0.1\"} 5\n\
         paracord_http_request_duration_seconds_bucket{le=\"0.25\"} 6\n\
         paracord_http_request_duration_seconds_bucket{le=\"0.5\"} 7\n\
         paracord_http_request_duration_seconds_bucket{le=\"1.0\"} 8\n\
         paracord_http_request_duration_seconds_bucket{le=\"+Inf\"} 9\n\
         paracord_http_request_duration_seconds_sum 1.5\n\
         paracord_http_request_duration_seconds_count 9\n\
         # HELP paracord_ws_connections_active Active WebSocket gateway connections.\n\
         # TYPE paracord_ws_connections_active gauge\n\
         paracord_ws_connections_active 2\n\
         # HELP paracord_ws_events_total Total WebSocket events dispatched.\n\
         # TYPE paracord_ws_events_total counter\n\
         paracord_ws_events_total 11\n\
         # HELP paracord_ws_events_by_type_total Total WebSocket events dispatched by event type.\n\
         # TYPE paracord_ws_events_by_type_total counter\n\
         paracord_ws_events_by_type_total{event_type=\"MESSAGE_CREATE\"} 3\n\
         paracord_ws_events_by_type_total{event_type=\"a\\\"b\"} 1\n";
    assert_eq!(body, expected);
}
