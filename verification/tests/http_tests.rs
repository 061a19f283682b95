use osint::http::{address, dechunk, dechunk_chars, request, response_body, HttpError};

fn chars(s: &str) -> Vec<char> {
    s.chars().collect()
}

#[test]
fn dechunk_joins_chunks() {
    assert_eq!(dechunk("4\r\nWiki\r\n5\r\npedia\r\n0\r\n\r\n"), "Wikipedia");
}

#[test]
fn dechunk_accepts_padded_and_signed_sizes() {
    assert_eq!(dechunk(" 4 \r\nWiki\r\n+5\r\npedia\r\n0\r\n\r\n"), "Wikipedia");
    assert_eq!(dechunk("A\r\n0123456789\r\n0\r\n\r\n"), "0123456789");
}

#[test]
fn dechunk_stops_at_bad_size_or_missing_line() {
    assert_eq!(dechunk("zz\r\nabc\r\n"), "");
    assert_eq!(dechunk("3\r\nabc\r\nno size here"), "abc");
    assert_eq!(dechunk(""), "");
}

#[test]
fn dechunk_takes_short_last_chunk_whole() {
    assert_eq!(dechunk("a\r\nabc"), "abc");
}

#[test]
fn dechunk_counts_bytes_not_characters() {
    // "é" is two bytes in UTF-8.
    assert_eq!(dechunk("2\r\né\r\n3\r\nabc\r\n0\r\n\r\n"), "éabc");
    // A size that ends inside a character is where slicing would panic.
    assert_eq!(dechunk_chars(&chars("1\r\né\r\n0\r\n\r\n")), None);
    assert_eq!(dechunk_chars(&chars("2\r\né\r\n0\r\n\r\n")), Some(chars("é")));
}

#[test]
fn request_and_address_text() {
    assert_eq!(address("ip-api.com"), "ip-api.com:80");
    assert_eq!(
        request("ip-api.com", "/json/1.1.1.1"),
        "GET /json/1.1.1.1 HTTP/1.1\r\nHost: ip-api.com\r\nUser-Agent: osint-rs\r\nConnection: close\r\n\r\n"
    );
}

#[test]
fn response_body_plain() {
    let raw = b"HTTP/1.1 200 OK\r\nContent-Type: application/json\r\n\r\n{\"a\":1}";
    assert_eq!(response_body("h", raw), Some(Ok("{\"a\":1}".to_string())));
}

#[test]
fn response_body_chunked() {
    let raw = b"HTTP/1.1 200 OK\r\nTransfer-Encoding: Chunked\r\n\r\n4\r\nWiki\r\n0\r\n\r\n";
    assert_eq!(response_body("h", raw), Some(Ok("Wiki".to_string())));
}

#[test]
fn response_body_bad_status() {
    let raw = b"HTTP/1.1 404 Not Found\r\nX: y\r\n\r\nnope";
    let r = response_body("example.org", raw);
    let expected = HttpError::Status {
        host: "example.org".to_string(),
        status_line: "HTTP/1.1 404 Not Found".to_string(),
    };
    assert_eq!(r, Some(Err(expected.clone())));
    assert_eq!(expected.message(), "example.org returned: HTTP/1.1 404 Not Found");
}

#[test]
fn response_body_empty_head_reports_unknown_status() {
    let r = response_body("h", b"\r\n\r\nbody");
    assert_eq!(
        r,
        Some(Err(HttpError::Status { host: "h".to_string(), status_line: "unknown status".to_string() }))
    );
}

#[test]
fn response_body_malformed() {
    let r = response_body("example.org", b"HTTP/1.1 200 OK\r\nno blank line");
    let expected = HttpError::Malformed { host: "example.org".to_string() };
    assert_eq!(r, Some(Err(expected.clone())));
    assert_eq!(expected.message(), "malformed HTTP response from example.org");
}

#[test]
fn response_body_invalid_utf8_is_replaced() {
    let raw = b"HTTP/1.1 200 OK\r\n\r\nA\xffB";
    assert_eq!(response_body("h", raw), Some(Ok("A\u{fffd}B".to_string())));
}

#[test]
fn io_error_message_is_its_text() {
    assert_eq!(HttpError::Io("refused".to_string()).message(), "refused");
}

#[test]
fn dechunk_undoes_chunking_of_long_and_multibyte_chunks() {
    let body = "1a\r\nabcdefghijklmnopqrstuvwxyz\r\n5\r\né€\r\n1\r\n!\r\n0\r\n\r\n";
    assert_eq!(dechunk(body), "abcdefghijklmnopqrstuvwxyzé€!");
    let upper = "1A\r\nabcdefghijklmnopqrstuvwxyz\r\nB\r\nhello world\r\n0\r\n\r\n";
    assert_eq!(dechunk(upper), "abcdefghijklmnopqrstuvwxyzhello world");
}
