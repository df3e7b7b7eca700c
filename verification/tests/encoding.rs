use base64::Engine as _;
use quickie::base64::{b64_decode, b64_encode};
use quickie::body::BodyCollector;
use quickie::headers::{collect_headers, headers_size};
use quickie::response::assemble_response;

#[test]
fn body_collector_accounts_every_data_frame() {
    let mut c = BodyCollector::new();
    c.push_data(b"he");
    c.push_data(b"");
    c.push_data(b"llo");
    assert_eq!(c.size(), 5);
    assert_eq!(c.into_bytes(), b"hello".to_vec());
}

#[test]
fn body_collector_empty() {
    let c = BodyCollector::new();
    assert_eq!(c.size(), 0);
    assert_eq!(c.into_bytes(), Vec::<u8>::new());
}

#[test]
fn headers_size_formula() {
    // 2 + (len("Content-Type") + len("text/plain") + 4)
    let hs = vec![(b"Content-Type".to_vec(), b"text/plain".to_vec())];
    assert_eq!(headers_size(&hs), 2 + 12 + 10 + 4);
    let two = vec![
        (b"a".to_vec(), b"1".to_vec()),
        (b"bb".to_vec(), b"22".to_vec()),
    ];
    assert_eq!(headers_size(&two), 2 + (1 + 1 + 4) + (2 + 2 + 4));
    assert_eq!(headers_size(&Vec::new()), 2);
}

#[test]
fn collect_headers_last_value_wins_in_place() {
    let delivered = vec![
        (b"a".to_vec(), b"1".to_vec()),
        (b"b".to_vec(), b"2".to_vec()),
        (b"a".to_vec(), b"3".to_vec()),
    ];
    let m = collect_headers(&delivered);
    assert_eq!(
        m,
        vec![(b"a".to_vec(), b"3".to_vec()), (b"b".to_vec(), b"2".to_vec())]
    );
}

#[test]
fn base64_known_values() {
    assert_eq!(b64_encode(&Vec::new()), Vec::<u8>::new());
    assert_eq!(b64_encode(&b"f".to_vec()), b"Zg==".to_vec());
    assert_eq!(b64_encode(&b"fo".to_vec()), b"Zm8=".to_vec());
    assert_eq!(b64_encode(&b"foo".to_vec()), b"Zm9v".to_vec());
    assert_eq!(b64_encode(&b"hello".to_vec()), b"aGVsbG8=".to_vec());
}

#[test]
fn base64_round_trip_values() {
    let mut all: Vec<u8> = Vec::new();
    for i in 0..=255u8 {
        all.push(i);
    }
    let cases = vec![
        Vec::new(),
        b"a".to_vec(),
        b"ab".to_vec(),
        b"abc".to_vec(),
        b"abcd".to_vec(),
        b"hello world".to_vec(),
        all,
    ];
    for raw in cases {
        let enc = b64_encode(&raw);
        assert_eq!(b64_decode(&enc), Some(raw));
    }
}

#[test]
fn base64_matches_reference_implementation() {
    let engine = &base64::engine::general_purpose::STANDARD;
    let cases = vec![
        Vec::new(),
        b"f".to_vec(),
        b"fo".to_vec(),
        b"hello".to_vec(),
        vec![0u8, 255, 7, 128, 63, 64],
    ];
    for raw in cases {
        let ours = String::from_utf8(b64_encode(&raw)).unwrap();
        assert_eq!(ours, engine.encode(&raw));
        assert_eq!(b64_decode(&ours.clone().into_bytes()), Some(raw.clone()));
        assert_eq!(engine.decode(&ours).unwrap(), raw);
    }
}

#[test]
fn base64_decode_rejects_malformed() {
    assert_eq!(b64_decode(&b"Zg=".to_vec()), None);
    assert_eq!(b64_decode(&b"Zg".to_vec()), None);
    assert_eq!(b64_decode(&b"@@@@".to_vec()), None);
    // Padding closes the buffer: nothing may follow it.
    assert_eq!(b64_decode(&b"Zg==Zm8=".to_vec()), None);
}

#[test]
fn assemble_response_plain_get() {
    // The compute side of a plain GET that answered 200 with body "hello".
    let delivered = vec![(b"Content-Type".to_vec(), b"text/plain".to_vec())];
    let raw = b"hello".to_vec();
    let url = "http://127.0.0.1:3000/ok".to_string();
    let method = "GET".to_string();
    let r = assemble_response(200, &delivered, &raw, &url, &method, 12);
    assert_eq!(r.status, 200);
    assert_eq!(r.body, b"aGVsbG8=".to_vec());
    assert_eq!(r.body_size_bytes, 5);
    assert_eq!(r.headers_size_bytes, 28);
    assert_eq!(r.time_taken, 12);
    assert_eq!(r.url, url);
    assert_eq!(r.method, method);
    assert_eq!(
        r.headers,
        vec![(b"Content-Type".to_vec(), b"text/plain".to_vec())]
    );
}

#[test]
fn assemble_response_duplicate_headers() {
    let delivered = vec![
        (b"Set-Cookie".to_vec(), b"a=1".to_vec()),
        (b"Set-Cookie".to_vec(), b"b=2".to_vec()),
    ];
    let raw = Vec::new();
    let url = "https://example.com/".to_string();
    let method = "GET".to_string();
    let r = assemble_response(204, &delivered, &raw, &url, &method, 0);
    // Last value wins, but the size estimate counts every delivered pair.
    assert_eq!(r.headers, vec![(b"Set-Cookie".to_vec(), b"b=2".to_vec())]);
    assert_eq!(r.headers_size_bytes, 2 + (10 + 3 + 4) + (10 + 3 + 4));
    assert_eq!(r.body, Vec::<u8>::new());
    assert_eq!(r.body_size_bytes, 0);
}
