use static_file_server::decimal::push_decimal;
use static_file_server::response::{error_response, success_response};

fn decimal(n: u64) -> String {
    let mut out = Vec::new();
    push_decimal(&mut out, n);
    String::from_utf8(out).unwrap()
}

#[test]
fn decimal_of_small_and_large_numbers() {
    assert_eq!(decimal(0), "0");
    assert_eq!(decimal(9), "9");
    assert_eq!(decimal(10), "10");
    assert_eq!(decimal(404), "404");
    assert_eq!(decimal(1000), "1000");
    assert_eq!(decimal(u64::MAX), "18446744073709551615");
}

#[test]
fn decimal_is_appended_after_what_is_there() {
    let mut out = b"n=".to_vec();
    push_decimal(&mut out, 2024);
    assert_eq!(out, b"n=2024".to_vec());
}

#[test]
fn decimal_agrees_with_the_standard_formatting() {
    let mut n: u64 = 1;
    for _ in 0..64 {
        assert_eq!(decimal(n), format!("{}", n));
        assert_eq!(decimal(n - 1), format!("{}", n - 1));
        n = n.wrapping_mul(2);
        if n == 0 {
            break;
        }
    }
}

#[test]
fn success_has_the_exact_layout() {
    let response = success_response(b"hi", "text/html");
    assert_eq!(
        response,
        b"HTTP/1.1 200 OK\r\nContent-Type: text/html\r\nContent-Length: 2\r\n\r\nhi".to_vec()
    );
}

#[test]
fn success_with_an_empty_body() {
    let response = success_response(b"", "image/png");
    assert_eq!(
        response,
        b"HTTP/1.1 200 OK\r\nContent-Type: image/png\r\nContent-Length: 0\r\n\r\n".to_vec()
    );
}

#[test]
fn success_keeps_every_byte_of_the_body() {
    let body: Vec<u8> = (0..=255u8).chain(0..=255u8).collect();
    let response = success_response(&body, "application/octet-stream");
    let head = b"HTTP/1.1 200 OK\r\nContent-Type: application/octet-stream\r\nContent-Length: 512\r\n\r\n";
    assert_eq!(&response[..head.len()], &head[..]);
    assert_eq!(&response[head.len()..], &body[..]);
}

#[test]
fn error_has_the_exact_layout() {
    let response = error_response(404, "Not Found");
    assert_eq!(
        response,
        b"HTTP/1.1 404 Not Found\r\nContent-Type: text/plain\r\nContent-Length: 9\r\n\r\nNot Found"
            .to_vec()
    );
}

#[test]
fn error_passes_code_and_message_through() {
    let response = error_response(500, "Internal Server Error");
    assert_eq!(
        response,
        b"HTTP/1.1 500 Internal Server Error\r\nContent-Type: text/plain\r\nContent-Length: 21\r\n\r\nInternal Server Error"
            .to_vec()
    );
    let response = error_response(0, "");
    assert_eq!(
        response,
        b"HTTP/1.1 0 \r\nContent-Type: text/plain\r\nContent-Length: 0\r\n\r\n".to_vec()
    );
    let response = error_response(65535, "x");
    assert_eq!(
        response,
        b"HTTP/1.1 65535 x\r\nContent-Type: text/plain\r\nContent-Length: 1\r\n\r\nx".to_vec()
    );
}

#[test]
fn error_counts_the_bytes_of_the_message() {
    let response = error_response(404, "né");
    assert_eq!(
        response,
        "HTTP/1.1 404 né\r\nContent-Type: text/plain\r\nContent-Length: 3\r\n\r\nné"
            .as_bytes()
            .to_vec()
    );
}

fn announced_length(response: &[u8]) -> (usize, usize) {
    let text = String::from_utf8_lossy(response).into_owned();
    let marker = "Content-Length: ";
    let at = text.find(marker).unwrap() + marker.len();
    let end = at + text[at..].find("\r\n").unwrap();
    let announced: usize = text[at..end].parse().unwrap();
    let body_at = response
        .windows(4)
        .position(|w| w == b"\r\n\r\n")
        .unwrap()
        + 4;
    (announced, response.len() - body_at)
}

#[test]
fn content_length_is_the_length_of_the_body() {
    for n in [0usize, 1, 9, 10, 99, 100, 1023, 4096] {
        let body = vec![b'a'; n];
        let (announced, actual) = announced_length(&success_response(&body, "text/css"));
        assert_eq!(announced, n);
        assert_eq!(actual, n);
    }
    for message in ["", "Not Found", "Forbidden", "a much longer message than usual"] {
        let (announced, actual) = announced_length(&error_response(403, message));
        assert_eq!(announced, message.len());
        assert_eq!(actual, message.len());
    }
}
