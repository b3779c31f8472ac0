use static_file_server::config::{Config, LoggingConfig, ServerConfig, StaticConfig, TlsConfig};
use static_file_server::server::{Server, Step};
use static_file_server::tls::TlsLoadError;

/// Base64 with padding, as it stands between the lines of a PEM section.
fn base64(bytes: &[u8]) -> String {
    let alphabet: Vec<char> =
        ('A'..='Z').chain('a'..='z').chain('0'..='9').chain(['+', '/']).collect();
    let mut out = String::new();
    for chunk in bytes.chunks(3) {
        let b = [chunk[0], *chunk.get(1).unwrap_or(&0), *chunk.get(2).unwrap_or(&0)];
        out.push(alphabet[(b[0] >> 2) as usize]);
        out.push(alphabet[(((b[0] & 0x03) << 4) | (b[1] >> 4)) as usize]);
        out.push(if chunk.len() > 1 { alphabet[(((b[1] & 0x0f) << 2) | (b[2] >> 6)) as usize] } else { '=' });
        out.push(if chunk.len() > 2 { alphabet[(b[2] & 0x3f) as usize] } else { '=' });
    }
    out
}

/// One PEM section of the given kind around `der`.
fn section(kind: &str, der: &[u8]) -> Vec<u8> {
    format!("-----BEGIN {}-----\n{}\n-----END {}-----\n", kind, base64(der), kind).into_bytes()
}

/// A section that begins and never ends.
fn open_section(kind: &str) -> Vec<u8> {
    format!("-----BEGIN {}-----\n{}\n", kind, base64(&[1, 2, 3])).into_bytes()
}

/// An Ed25519 key in PKCS#8, made for the test from a seed that is no
/// secret: the fixed beginning of the encoding, then the 32 bytes of the
/// seed.
fn test_key_der() -> Vec<u8> {
    let mut der = vec![
        0x30, 0x2e, 0x02, 0x01, 0x00, 0x30, 0x05, 0x06, 0x03, 0x2b, 0x65, 0x70, 0x04, 0x22, 0x04,
        0x20,
    ];
    for i in 0..32u32 {
        der.push((i * 7 + 3) as u8);
    }
    der
}

fn test_key_pem() -> Vec<u8> {
    section("PRIVATE KEY", &test_key_der())
}

fn one_cert() -> Vec<u8> {
    section("CERTIFICATE", &[1, 2, 3])
}

fn config(enabled: bool, root_dir: &str) -> Config {
    Config {
        server: ServerConfig {
            host: "127.0.0.1".to_string(),
            port: 8080,
            tls: TlsConfig {
                enabled: false,
                cert_path: "cert.pem".to_string(),
                key_path: "key.pem".to_string(),
            },
        },
        static_files: StaticConfig { enabled, root_dir: root_dir.to_string() },
        logging: LoggingConfig { level: "info".to_string() },
    }
}

const NOT_FOUND: &[u8] =
    b"HTTP/1.1 404 Not Found\r\nContent-Type: text/plain\r\nContent-Length: 9\r\n\r\nNot Found";

/// Runs both steps for one request, reading files from `files`.
fn exchange(server: &Server, request: &[u8], files: &[(&str, &[u8])]) -> Vec<u8> {
    match server.handle_client(request) {
        Step::Respond { response } => response,
        Step::Read { file, path } => {
            let contents = files
                .iter()
                .find(|(name, _)| name.as_bytes() == &file[..])
                .map(|(_, bytes)| bytes.to_vec());
            server.respond(&path, contents)
        }
    }
}

#[test]
fn test_server_response() {
    let server = Server::new(config(true, "public"), b"", b"").unwrap();
    assert_eq!(server.config().server.address(), "127.0.0.1:8080");
    let mut buffer = [0u8; 1024];
    let request = "GET / HTTP/1.1\r\nHost: localhost\r\n\r\n";
    buffer[..request.len()].copy_from_slice(request.as_bytes());
    let files: [(&str, &[u8]); 1] = [("public", b"Hello from RH!")];
    let answer = exchange(&server, &buffer, &files);
    let response = String::from_utf8_lossy(&answer);
    assert!(response.contains("HTTP/1.1 200 OK"));
    assert!(response.contains("Hello from RH!"));
}

#[test]
fn existing_file_is_sent_with_its_type() {
    let server = Server::new(config(true, "/srv"), b"", b"").unwrap();
    let files: [(&str, &[u8]); 1] = [("/srv/index.html", b"hi")];
    let response = exchange(&server, b"GET /index.html HTTP/1.1\r\n\r\n", &files);
    assert_eq!(
        response,
        b"HTTP/1.1 200 OK\r\nContent-Type: text/html\r\nContent-Length: 2\r\n\r\nhi".to_vec()
    );
}

#[test]
fn missing_file_is_not_found() {
    let server = Server::new(config(true, "/srv"), b"", b"").unwrap();
    let files: [(&str, &[u8]); 1] = [("/srv/index.html", b"hi")];
    let response = exchange(&server, b"GET /missing.txt HTTP/1.1\r\n\r\n", &files);
    assert_eq!(response, NOT_FOUND.to_vec());
}

#[test]
fn file_above_the_root_is_not_found() {
    let server = Server::new(config(true, "/srv"), b"", b"").unwrap();
    let files: [(&str, &[u8]); 3] = [
        ("/secret.txt", b"secret"),
        ("/srv/../secret.txt", b"secret"),
        ("/srv/secret.txt", b"not so secret"),
    ];
    let response = exchange(&server, b"GET /../secret.txt HTTP/1.1\r\n\r\n", &files);
    assert_eq!(response, NOT_FOUND.to_vec());
    assert!(matches!(
        server.handle_client(b"GET /../secret.txt HTTP/1.1\r\n\r\n"),
        Step::Respond { .. }
    ));
}

#[test]
fn file_reached_by_leaving_the_root_and_coming_back_is_sent() {
    let server = Server::new(config(true, "/srv"), b"", b"").unwrap();
    let files: [(&str, &[u8]); 2] = [("/srv/index.html", b"hi"), ("/secret.txt", b"secret")];
    let expected =
        b"HTTP/1.1 200 OK\r\nContent-Type: text/html\r\nContent-Length: 2\r\n\r\nhi".to_vec();
    assert_eq!(exchange(&server, b"GET /../srv/index.html HTTP/1.1\r\n\r\n", &files), expected);
    assert_eq!(exchange(&server, b"GET //srv/index.html HTTP/1.1\r\n\r\n", &files), expected);
    assert_eq!(exchange(&server, b"GET /a/../index.html HTTP/1.1\r\n\r\n", &files), expected);
    assert_eq!(
        server.respond(b"/../srv/index.html", Some(b"hi".to_vec())),
        expected
    );
    assert_eq!(
        exchange(&server, b"GET /../srv/../secret.txt HTTP/1.1\r\n\r\n", &files),
        NOT_FOUND.to_vec()
    );
}

#[test]
fn respond_sends_nothing_from_above_the_root_even_if_it_was_read() {
    let server = Server::new(config(true, "/srv"), b"", b"").unwrap();
    assert_eq!(server.respond(b"/../secret.txt", Some(b"secret".to_vec())), NOT_FOUND.to_vec());
    assert_eq!(server.respond(b"/a/../../x.html", Some(b"secret".to_vec())), NOT_FOUND.to_vec());
    assert_eq!(server.respond(b"//etc/passwd", Some(b"secret".to_vec())), NOT_FOUND.to_vec());
}

#[test]
fn without_static_files_everything_is_not_found() {
    let server = Server::new(config(false, "/srv"), b"", b"").unwrap();
    assert!(server.static_server().is_none());
    let files: [(&str, &[u8]); 2] = [("/srv/index.html", b"hi"), ("/srv/", b"dir")];
    for request in [
        &b"GET /index.html HTTP/1.1\r\n\r\n"[..],
        &b"GET / HTTP/1.1\r\n\r\n"[..],
        &b"GET /../secret.txt HTTP/1.1\r\n\r\n"[..],
        &b""[..],
        &b"nonsense"[..],
    ] {
        assert_eq!(exchange(&server, request, &files), NOT_FOUND.to_vec());
        assert!(matches!(server.handle_client(request), Step::Respond { .. }));
    }
    assert_eq!(server.respond(b"/index.html", Some(b"hi".to_vec())), NOT_FOUND.to_vec());
    assert_eq!(server.respond(b"/index.html", None), NOT_FOUND.to_vec());
}

#[test]
fn first_step_names_the_file_and_the_path() {
    let server = Server::new(config(true, "/srv/www/"), b"", b"").unwrap();
    assert_eq!(server.static_server().unwrap().root_dir(), "/srv/www/");
    match server.handle_client(b"GET /img/./logo.png HTTP/1.1\r\n") {
        Step::Read { file, path } => {
            assert_eq!(file, b"/srv/www/img/logo.png".to_vec());
            assert_eq!(path, b"/img/./logo.png".to_vec());
        }
        Step::Respond { .. } => panic!("a file was expected"),
    }
    match server.handle_client(b"") {
        Step::Read { file, path } => {
            assert_eq!(file, b"/srv/www".to_vec());
            assert_eq!(path, b"/".to_vec());
        }
        Step::Respond { .. } => panic!("a file was expected"),
    }
}

#[test]
fn content_type_goes_by_the_requested_path() {
    let server = Server::new(config(true, "/srv"), b"", b"").unwrap();
    let files: [(&str, &[u8]); 3] = [
        ("/srv/a.json", b"{}"),
        ("/srv/blob.bin", b"\x00\x01"),
        ("/srv/README", b"read me"),
    ];
    assert_eq!(
        exchange(&server, b"GET /a.json HTTP/1.1\r\n", &files),
        b"HTTP/1.1 200 OK\r\nContent-Type: application/json\r\nContent-Length: 2\r\n\r\n{}".to_vec()
    );
    assert_eq!(
        exchange(&server, b"GET /blob.bin HTTP/1.1\r\n", &files),
        b"HTTP/1.1 200 OK\r\nContent-Type: application/octet-stream\r\nContent-Length: 2\r\n\r\n\x00\x01"
            .to_vec()
    );
    assert_eq!(
        exchange(&server, b"GET /README HTTP/1.1\r\n", &files),
        b"HTTP/1.1 200 OK\r\nContent-Type: application/octet-stream\r\nContent-Length: 7\r\n\r\nread me"
            .to_vec()
    );
    assert_eq!(
        exchange(&server, b"GET /x/../a.json HTTP/1.1\r\n", &files),
        b"HTTP/1.1 200 OK\r\nContent-Type: application/json\r\nContent-Length: 2\r\n\r\n{}".to_vec()
    );
}

#[test]
fn server_without_tls_ignores_the_tls_files() {
    let server = Server::new(config(true, "/srv"), &open_section("CERTIFICATE"), b"junk").unwrap();
    assert!(server.tls_config().is_none());
}

#[test]
fn server_with_tls_holds_a_configuration() {
    let mut settings = config(true, "/srv");
    settings.server.tls.enabled = true;
    let server = Server::new(settings, &one_cert(), &test_key_pem()).unwrap();
    assert!(server.tls_config().is_some());
    let files: [(&str, &[u8]); 1] = [("/srv/index.html", b"hi")];
    assert_eq!(
        exchange(&server, b"GET /index.html HTTP/1.1\r\n\r\n", &files),
        b"HTTP/1.1 200 OK\r\nContent-Type: text/html\r\nContent-Length: 2\r\n\r\nhi".to_vec()
    );
}

#[test]
fn server_with_tls_fails_on_bad_files() {
    let mut settings = config(true, "/srv");
    settings.server.tls.enabled = true;
    assert_eq!(
        Server::new(settings.clone(), &open_section("CERTIFICATE"), &test_key_pem()).err(),
        Some(TlsLoadError::Certificate)
    );
    assert_eq!(
        Server::new(settings.clone(), &one_cert(), &open_section("PRIVATE KEY")).err(),
        Some(TlsLoadError::PrivateKey)
    );
    assert_eq!(
        Server::new(settings.clone(), &one_cert(), b"").err(),
        Some(TlsLoadError::MissingPrivateKey)
    );
    assert_eq!(
        Server::new(settings, &one_cert(), &section("PRIVATE KEY", &[1, 2, 3])).err(),
        Some(TlsLoadError::InvalidPrivateKey)
    );
}

#[test]
fn server_keeps_its_settings() {
    let server = Server::new(config(true, "/srv"), b"", b"").unwrap();
    assert_eq!(server.config().server.host, "127.0.0.1");
    assert_eq!(server.config().server.port, 8080);
    assert!(server.config().static_files.enabled);
    assert_eq!(server.config().static_files.root_dir, "/srv");
    assert_eq!(server.config().logging.level, "info");
    assert!(!server.config().server.tls.enabled);
}

#[test]
fn address_is_host_colon_port() {
    let mut settings = config(true, "/srv");
    assert_eq!(settings.server.address(), "127.0.0.1:8080");
    settings.server.host = "localhost".to_string();
    settings.server.port = 0;
    assert_eq!(settings.server.address(), "localhost:0");
    settings.server.host = "::1".to_string();
    settings.server.port = 65535;
    assert_eq!(settings.server.address(), "::1:65535");
    settings.server.host = String::new();
    settings.server.port = 7;
    assert_eq!(settings.server.address(), ":7");
}
