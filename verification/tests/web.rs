use atmoq::metrics::Metrics;
use atmoq::web::{
    admin_path, admin_response, admin_route, admin_route_at, landing_page, landing_response,
    parse_head, read_request, redirect_response, Progress, RequestHead, HEAD_LIMIT,
    HEALTH_STALE_AFTER_MS, VERSION,
};

#[test]
fn metrics_route_serves_exposition() {
    let mut m = Metrics::default();
    m.record_frame(Some(9));
    let (status, ct, body) = admin_route("/metrics", &m, None);
    assert_eq!(status, "200 OK");
    assert!(ct.starts_with("text/plain; version=0.0.4"));
    assert!(body.contains("atmoq_frames_total 1"));
}

#[test]
fn health_is_ok_before_the_first_frame() {
    // A relay that just started has not failed; reporting 503 during startup
    // only teaches operators to ignore the endpoint.
    let (status, _, body) = admin_route("/healthz", &Metrics::default(), None);
    assert_eq!(status, "200 OK");
    assert!(body.contains("starting"));
}

#[test]
fn health_is_ok_while_frames_flow() {
    let mut m = Metrics::default();
    m.record_frame(Some(1));
    let (status, _, _) = admin_route("/healthz", &m, None);
    assert_eq!(status, "200 OK");
}

#[test]
fn health_fails_when_frames_go_stale() {
    let mut m = Metrics::default();
    m.record_frame(Some(1));
    // Backdate the last frame past the threshold.
    let stale = m.last_frame_unix_ms - (HEALTH_STALE_AFTER_MS + 1_000);
    m.last_frame_unix_ms = stale;
    let (status, _, body) = admin_route("/healthz", &m, None);
    assert_eq!(status, "503 Service Unavailable");
    assert!(body.contains("unhealthy"));
}

#[test]
fn query_strings_and_unknown_paths() {
    let m = Metrics::default();
    assert_eq!(admin_route("/nope", &m, None).0, "404 Not Found");
    // The query is stripped before routing; verify the target path matches once
    // stripped.
    assert_eq!(admin_route("/metrics", &m, None).0, "200 OK");
    assert_eq!(admin_path("/metrics?a=b?c"), "/metrics");
    assert_eq!(admin_path("/metrics"), "/metrics");
    assert_eq!(admin_path("?x"), "");
}

fn health_at(age: u64) -> (&'static str, String) {
    let mut m = Metrics::default();
    m.subscribers_connected_total = 4;
    m.record_frame_at(None, 1_000_000);
    let (status, ct, body) =
        admin_route_at("/healthz", &m, 1_000_000 + age, None, Err("no".to_string()));
    assert_eq!(ct, "text/plain; charset=utf-8");
    (status, body)
}

#[test]
fn health_threshold_is_exact() {
    assert_eq!(
        health_at(60_000),
        (
            "200 OK",
            "ok: last frame 60.0s ago, 4 subscribers\n".to_string()
        )
    );
    assert_eq!(
        health_at(60_001),
        (
            "503 Service Unavailable",
            "unhealthy: no frame relayed for 60.0s (threshold 60s)\n".to_string()
        )
    );
    assert_eq!(
        health_at(61_950).1,
        "unhealthy: no frame relayed for 62.0s (threshold 60s)\n"
    );
}

#[test]
fn heap_route_passes_the_profile_on() {
    let m = Metrics::default();
    let route = |heap| admin_route_at("/debug/heap", &m, 0, None, heap);
    assert_eq!(
        route(Ok("profile".to_string())),
        (
            "200 OK",
            "text/plain; charset=utf-8",
            "profile".to_string()
        )
    );
    assert_eq!(
        route(Err("why".to_string())),
        (
            "501 Not Implemented",
            "text/plain; charset=utf-8",
            "why\n".to_string()
        )
    );
    let (status, _, body) = admin_route("/debug/heap", &m, None);
    assert_eq!(status, "501 Not Implemented");
    assert_eq!(
        body,
        "built without the `profiling` feature; rebuild with --features profiling\n"
    );
    assert_eq!(
        admin_route("/", &m, None).2,
        "not found\n\navailable: /metrics /healthz /debug/heap\n"
    );
}

#[test]
fn responses_count_bytes() {
    assert_eq!(
        admin_response(&("200 OK", "text/plain", "é\n".to_string())),
        "HTTP/1.1 200 OK\r\nContent-Type: text/plain\r\nContent-Length: 3\r\nConnection: close\r\n\r\né\n"
    );
    assert_eq!(
        landing_response("hi"),
        "HTTP/1.1 200 OK\r\nContent-Type: text/plain; charset=utf-8\r\nContent-Length: 2\r\nConnection: close\r\n\r\nhi"
    );
}

#[test]
fn redirects_drop_the_port() {
    let expected = "HTTP/1.1 301 Moved Permanently\r\nLocation: https://example.com/a?b\r\nContent-Length: 0\r\nConnection: close\r\n\r\n";
    assert_eq!(
        redirect_response("/a?b", Some("example.com:80".to_string()), "other"),
        expected
    );
    assert_eq!(
        redirect_response("/a?b", None, "example.com:8080"),
        expected
    );
    assert_eq!(
        redirect_response("/a?b", Some("example.com".to_string()), "other"),
        expected
    );
}

#[test]
fn landing_page_is_exact() {
    let page = landing_page("relay.example", "atproto", "all");
    let expected = format!(
        "        _\n   __ _| |_ _ __ ___   ___   __ _\n  / _` | __| '_ ` _ \\ / _ \\ / _` |\n | (_| | |_| | | | | | (_) | (_| |\n  \\__,_|\\__|_| |_| |_|\\___/ \\__, |\n                               |_|\n\n\
        This is an atproto [https://atproto.com] relay,\n\
        running the 'atmoq' codebase [https://github.com/streamplace/atmoq] v{VERSION},\n\
        serving the firehose over MoQ [https://moq.dev].\n\
        \n\
        The firehose MoQ broadcast is at:\n\
        \n\
        url:       https://relay.example\n\
        broadcast: atproto\n\
        track:     all\n\
        \n\
        Consume it with:\n\
        \n\
        cargo install atmoq\n\
        atmoq firehose --moq-host https://relay.example\n"
    );
    assert_eq!(page, expected);
}

fn head(text: &str) -> Option<(String, Option<String>)> {
    let direct = parse_head(text);
    assert_eq!(read_request(text.as_bytes()), direct);
    direct
}

fn some(path: &str, host: Option<&str>) -> Option<(String, Option<String>)> {
    Some((path.to_string(), host.map(|h| h.to_string())))
}

#[test]
fn request_heads_are_read() {
    assert_eq!(
        head("GET /x?y HTTP/1.1\r\nAccept: */*\r\nHOST:  example.com:80 \r\n\r\n"),
        some("/x?y", Some("example.com:80"))
    );
    assert_eq!(
        head("GET / HTTP/1.0\nhost: a\nHost: b\n\n"),
        some("/", Some("a"))
    );
    assert_eq!(head("GET\r\n\r\n"), some("/", None));
    assert_eq!(head("\r\n\r\n"), None);
    assert_eq!(head(""), None);
    assert_eq!(head("   \r\nHost: x\r\n"), None);
    assert_eq!(head("GET /a\rb"), some("/a", None));
    assert_eq!(head("GET /p"), some("/p", None));
    assert_eq!(
        head("GET /p HTTP/1.1\r\nNo colon here\r\nHost:\r\n"),
        some("/p", Some(""))
    );
    // A lone carriage return at the very end belongs to the line.
    assert_eq!(head("GET /p X\r\nHost: h\r"), some("/p", Some("h")));
}

#[test]
fn bad_utf8_in_a_head_is_replaced() {
    assert_eq!(
        read_request(b"GET /\xff HTTP/1.1\r\n\r\n"),
        some("/\u{fffd}", None)
    );
}

#[test]
fn heads_are_read_until_they_end() {
    let (h, p) = RequestHead::new().add_chunk(b"GET / HTTP/1.1\r\n");
    assert_eq!(p, Progress::More);
    assert_eq!(h.room(), HEAD_LIMIT - 16);
    let (h, p) = h.add_chunk(b"\r");
    assert_eq!(p, Progress::More);
    let (h, p) = h.add_chunk(b"\nrest");
    assert_eq!(p, Progress::Complete);
    assert_eq!(h.as_bytes(), b"GET / HTTP/1.1\r\n\r\nrest");

    let (_, p) = RequestHead::new().add_chunk(b"");
    assert_eq!(p, Progress::Closed);

    let (h, p) = RequestHead::new().add_chunk(&[b'x'; 4095]);
    assert_eq!(p, Progress::More);
    assert_eq!(h.room(), 1);
    let (h, p) = h.add_chunk(b"x");
    assert_eq!(p, Progress::Complete);
    assert_eq!(h.room(), 0);
}
