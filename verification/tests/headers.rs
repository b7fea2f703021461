use ping_server::headers::{parse_headers, split_header, HeaderMap};

#[test]
fn header_map_starts_empty() {
    let headers = HeaderMap::new();
    assert_eq!(headers.len(), 0);
    assert!(headers.is_empty());
    assert_eq!(headers.get("Host"), None);
}

#[test]
fn header_map_insert_then_get() {
    let mut headers = HeaderMap::new();
    headers.insert("Host".to_string(), "example.com".to_string());
    headers.insert("X-Test".to_string(), "1".to_string());
    assert_eq!(headers.len(), 2);
    assert!(!headers.is_empty());
    assert_eq!(headers.get("Host"), Some("example.com"));
    assert_eq!(headers.get("X-Test"), Some("1"));
    assert_eq!(headers.get("Other"), None);
}

#[test]
fn header_map_insert_overwrites() {
    let mut headers = HeaderMap::new();
    headers.insert("A".to_string(), "1".to_string());
    headers.insert("B".to_string(), "x".to_string());
    headers.insert("A".to_string(), "2".to_string());
    assert_eq!(headers.len(), 2);
    assert_eq!(headers.get("A"), Some("2"));
    assert_eq!(headers.get("B"), Some("x"));
}

#[test]
fn header_map_names_are_case_sensitive() {
    let mut headers = HeaderMap::new();
    headers.insert("host".to_string(), "a".to_string());
    headers.insert("Host".to_string(), "b".to_string());
    assert_eq!(headers.len(), 2);
    assert_eq!(headers.get("host"), Some("a"));
    assert_eq!(headers.get("Host"), Some("b"));
    assert_eq!(headers.get("HOST"), None);
}

#[test]
fn split_header_at_first_colon() {
    assert_eq!(split_header("Host: example.com"), Some(("Host", "example.com")));
    assert_eq!(split_header("Host:example.com:8080"), Some(("Host", "example.com:8080")));
    assert_eq!(split_header("  Name \t:  some value  "), Some(("Name", "some value")));
    assert_eq!(split_header(":"), Some(("", "")));
    assert_eq!(split_header(": v"), Some(("", "v")));
    assert_eq!(split_header("k:"), Some(("k", "")));
}

#[test]
fn split_header_without_colon() {
    assert_eq!(split_header("BadLine"), None);
    assert_eq!(split_header(""), None);
    assert_eq!(split_header("   "), None);
}

#[test]
fn parse_headers_round_trip() {
    let headers =
        parse_headers("GET /ping HTTP/1.1\r\nHost: example.com\r\nX-Test: 1\r\n\r\n");
    assert_eq!(headers.len(), 2);
    assert_eq!(headers.get("Host"), Some("example.com"));
    assert_eq!(headers.get("X-Test"), Some("1"));
}

#[test]
fn parse_headers_last_duplicate_wins() {
    let headers = parse_headers("GET /ping HTTP/1.1\r\nA: 1\r\nA: 2\r\n");
    assert_eq!(headers.len(), 1);
    assert_eq!(headers.get("A"), Some("2"));
}

#[test]
fn parse_headers_ignores_line_without_colon() {
    let headers = parse_headers("GET /ping HTTP/1.1\r\nBadLine\r\nHost: x\r\n\r\n");
    assert_eq!(headers.len(), 1);
    assert_eq!(headers.get("Host"), Some("x"));
    assert_eq!(headers.get("BadLine"), None);
}

#[test]
fn parse_headers_of_empty_text() {
    assert!(parse_headers("").is_empty());
}

#[test]
fn parse_headers_without_headers() {
    assert!(parse_headers("GET /ping HTTP/1.1").is_empty());
    assert!(parse_headers("GET /ping HTTP/1.1\r\n").is_empty());
    assert!(parse_headers("GET /ping HTTP/1.1\r\n\r\n").is_empty());
}

#[test]
fn parse_headers_skips_the_request_line() {
    let headers = parse_headers("Not: a header\r\nReal: one\r\n\r\n");
    assert_eq!(headers.len(), 1);
    assert_eq!(headers.get("Not"), None);
    assert_eq!(headers.get("Real"), Some("one"));
}

#[test]
fn parse_headers_stops_at_first_empty_line() {
    let headers = parse_headers("GET /ping HTTP/1.1\r\nA: 1\r\n\r\nB: 2\r\nA: 3\r\n");
    assert_eq!(headers.len(), 1);
    assert_eq!(headers.get("A"), Some("1"));
    assert_eq!(headers.get("B"), None);
}

#[test]
fn parse_headers_reads_to_the_end_without_empty_line() {
    let headers = parse_headers("GET /ping HTTP/1.1\nA: 1\nB: 2");
    assert_eq!(headers.len(), 2);
    assert_eq!(headers.get("A"), Some("1"));
    assert_eq!(headers.get("B"), Some("2"));
}

#[test]
fn parse_headers_takes_a_blank_line_for_a_line() {
    let headers = parse_headers("GET /ping HTTP/1.1\r\nA: 1\r\n   \r\nB: 2\r\n\r\n");
    assert_eq!(headers.len(), 2);
    assert_eq!(headers.get("B"), Some("2"));
}

#[test]
fn parse_headers_keeps_what_trim_keeps() {
    let headers = parse_headers("GET /ping HTTP/1.1\r\nA: 1\0\0\0");
    assert_eq!(headers.get("A"), Some("1\0\0\0"));
}

#[test]
fn parse_headers_agrees_with_a_hash_map() {
    let request = "GET /ping HTTP/1.1\r\nHost: a\r\n X : y : z \r\nnone\r\nHost: b\r\n:\r\n\r\nC: d";
    let mut expected = std::collections::HashMap::new();
    for line in request.lines().skip(1) {
        if line.is_empty() {
            break;
        }
        if let Some(at) = line.find(':') {
            expected.insert(line[..at].trim().to_string(), line[(at + 1)..].trim().to_string());
        }
    }
    let headers = parse_headers(request);
    assert_eq!(headers.len(), expected.len());
    for (name, value) in &expected {
        assert_eq!(headers.get(name), Some(value.as_str()));
    }
}
