use quickie::errors::Error;
use quickie::proto::{begin_send, select_protocol, step, ConnEvent, ConnState, Protocol};
use quickie::request::prepare;
use quickie::tls::{alpn_offers, check_server_name};
use quickie::url::{resolve, Scheme};

#[test]
fn resolve_http_basic() {
    let u = resolve("http://example.com/path").unwrap();
    assert_eq!(u.scheme, Scheme::Http);
    assert_eq!(u.host, b"example.com".to_vec());
    assert_eq!(u.port, 80);
    assert_eq!(u.path, b"/path".to_vec());
}

#[test]
fn resolve_https_default_port() {
    let u = resolve("https://example.com").unwrap();
    assert_eq!(u.scheme, Scheme::Https);
    assert_eq!(u.port, 443);
    assert_eq!(u.path, b"".to_vec());
    assert_eq!(u.target(), b"/".to_vec());
}

#[test]
fn resolve_explicit_port() {
    let u = resolve("http://example.com:8080/x").unwrap();
    assert_eq!(u.port, 8080);
    let v = resolve("https://example.com:65535/").unwrap();
    assert_eq!(v.port, 65535);
    assert_eq!(v.target(), b"/".to_vec());
}

#[test]
fn resolve_port_leading_zeros() {
    let u = resolve("http://h:0080/").unwrap();
    assert_eq!(u.port, 80);
}

#[test]
fn resolve_loopback() {
    let u = resolve("http://127.0.0.1:3000/ok").unwrap();
    assert_eq!(u.host, b"127.0.0.1".to_vec());
    assert_eq!(u.port, 3000);
    assert_eq!(u.path, b"/ok".to_vec());
}

#[test]
fn resolve_rejects_unsupported_scheme() {
    assert_eq!(resolve("ftp://example.com/"), Err(Error::InvalidUrl));
    assert_eq!(resolve("wss://example.com/"), Err(Error::InvalidUrl));
}

#[test]
fn resolve_rejects_missing_scheme() {
    assert_eq!(resolve("example.com"), Err(Error::InvalidUrl));
    assert_eq!(resolve(""), Err(Error::InvalidUrl));
    assert_eq!(resolve("http:/example.com"), Err(Error::InvalidUrl));
}

#[test]
fn resolve_rejects_empty_host() {
    assert_eq!(resolve("http://"), Err(Error::InvalidUrl));
    assert_eq!(resolve("http:///x"), Err(Error::InvalidUrl));
    assert_eq!(resolve("https://:443/"), Err(Error::InvalidUrl));
}

#[test]
fn resolve_rejects_bad_port() {
    assert_eq!(resolve("http://h:0/"), Err(Error::InvalidUrl));
    assert_eq!(resolve("http://h:65536/"), Err(Error::InvalidUrl));
    assert_eq!(resolve("http://h:99999999999999999999/"), Err(Error::InvalidUrl));
    assert_eq!(resolve("http://h:/"), Err(Error::InvalidUrl));
    assert_eq!(resolve("http://h:12x/"), Err(Error::InvalidUrl));
}

#[test]
fn resolve_rejects_bad_host_byte() {
    assert_eq!(resolve("http://ex ample.com/"), Err(Error::InvalidUrl));
    assert_eq!(resolve("http://host?q=1"), Err(Error::InvalidUrl));
}

#[test]
fn prepare_rejects_invalid_method() {
    // The method is checked before the URL, so a bad URL does not hide it.
    assert!(matches!(prepare("G ET", "http://example.com/"), Err(Error::InvalidMethod)));
    assert!(matches!(prepare("G ET", "not a url"), Err(Error::InvalidMethod)));
    assert!(matches!(prepare("", "http://example.com/"), Err(Error::InvalidMethod)));
}

#[test]
fn prepare_rejects_invalid_url() {
    assert!(matches!(prepare("GET", "ftp://example.com/"), Err(Error::InvalidUrl)));
    assert!(matches!(prepare("GET", "http://"), Err(Error::InvalidUrl)));
}

#[test]
fn prepare_fixed_headers() {
    let p = prepare("GET", "http://example.com:81/a").unwrap();
    assert_eq!(p.method, "GET".to_string());
    assert_eq!(p.url, "http://example.com:81/a".to_string());
    assert_eq!(p.parts.port, 81);
    assert_eq!(p.headers.len(), 2);
    assert_eq!(p.headers[0].0, b"Host".to_vec());
    assert_eq!(p.headers[0].1, b"example.com".to_vec());
    assert_eq!(p.headers[1].0, b"User-Agent".to_vec());
    assert_eq!(p.headers[1].1, b"Quickie/1.0".to_vec());
    let dup = p.headers.iter().filter(|h| h.0 == b"User-Agent".to_vec()).count();
    assert_eq!(dup, 1);
}

#[test]
fn prepare_accepts_standard_and_extension_methods() {
    assert!(prepare("POST", "http://example.com/").is_ok());
    assert!(prepare("PATCH", "http://example.com/").is_ok());
    assert!(prepare("QUERY", "http://example.com/").is_ok());
    assert!(prepare("get", "http://example.com/").is_ok());
}

#[test]
fn prepare_rejects_non_token_methods() {
    assert!(matches!(prepare("GET/", "http://example.com/"), Err(Error::InvalidMethod)));
    assert!(matches!(prepare("GET\t", "http://example.com/"), Err(Error::InvalidMethod)));
}

#[test]
fn server_name_accepts_dns_and_ip() {
    assert!(check_server_name(&b"example.com".to_vec()).is_ok());
    assert!(check_server_name(&b"127.0.0.1".to_vec()).is_ok());
}

#[test]
fn server_name_rejects_bad_names() {
    assert_eq!(check_server_name(&b"".to_vec()), Err(Error::InvalidUrl));
    assert_eq!(check_server_name(&b"exa mple.com".to_vec()), Err(Error::InvalidUrl));
    assert_eq!(check_server_name(&b"-bad-.example".to_vec()), Err(Error::InvalidUrl));
}

#[test]
fn alpn_offer_list_in_order() {
    let offers = alpn_offers();
    assert_eq!(offers.len(), 2);
    assert_eq!(offers[0], b"h2".to_vec());
    assert_eq!(offers[1], b"http/1.1".to_vec());
}

#[test]
fn alpn_selection_table() {
    assert_eq!(select_protocol(Scheme::Https, Some(&b"h2".to_vec())), Protocol::H2);
    assert_eq!(select_protocol(Scheme::Https, Some(&b"http/1.1".to_vec())), Protocol::H1);
    assert_eq!(select_protocol(Scheme::Https, None), Protocol::H1);
    assert_eq!(select_protocol(Scheme::Http, Some(&b"h2".to_vec())), Protocol::H1);
    assert_eq!(select_protocol(Scheme::Http, None), Protocol::H1);
}

#[test]
fn connection_lifecycle() {
    let st = step(ConnState::Opening, ConnEvent::HandshakeDone, Protocol::H1);
    assert_eq!(st, ConnState::Ready);
    let st = begin_send(st).unwrap();
    assert_eq!(st, ConnState::InUse);
    assert_eq!(step(st, ConnEvent::BodyDrained, Protocol::H1), ConnState::Closed);
    assert_eq!(step(st, ConnEvent::BodyDrained, Protocol::H2), ConnState::Ready);
    assert_eq!(step(ConnState::Ready, ConnEvent::DriverFailed, Protocol::H1), ConnState::Broken);
    assert_eq!(step(st, ConnEvent::DriverFailed, Protocol::H2), ConnState::Broken);
    assert_eq!(step(ConnState::Closed, ConnEvent::DriverFailed, Protocol::H1), ConnState::Closed);
    assert!(matches!(begin_send(ConnState::Broken), Err(Error::RequestFailed)));
    assert!(matches!(begin_send(ConnState::Closed), Err(Error::RequestFailed)));
}

#[test]
fn error_descriptions() {
    assert_eq!(Error::InvalidMethod.describe(), "Invalid method");
    assert_eq!(Error::InvalidUrl.describe(), "Invalid url");
    assert_eq!(Error::Dns.describe(), "DNS error, check the url");
    assert_eq!(Error::ConnectionFailed.describe(), "TLS connection failed");
    assert_eq!(Error::Client.describe(), "HTTP handshake failed");
    assert_eq!(Error::RequestFailed.describe(), "Request failed");
    assert_eq!(Error::ResponseFrame("x".to_string()).describe(), "Response frame error");
}
