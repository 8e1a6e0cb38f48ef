use server_core::http::{
    content_length, decode_request, find_subslice, http_response, json_number_field,
    json_string_field, request_complete, request_parts,
};

#[test]
fn find_subslice_finds_first_occurrence() {
    assert_eq!(find_subslice(b"abcabc", b"bc"), Some(1));
    assert_eq!(find_subslice(b"GET / HTTP/1.1\r\n\r\nbody\r\n\r\n", b"\r\n\r\n"), Some(14));
    assert_eq!(find_subslice(b"abc", b"abcd"), None);
    assert_eq!(find_subslice(b"", b"x"), None);
    assert_eq!(find_subslice(b"xyz", b"xyz"), Some(0));
}

#[test]
fn content_length_reads_first_parsable_header() {
    assert_eq!(content_length("POST /order HTTP/1.1\r\nContent-Length: 42\r\nHost: x"), 42);
    assert_eq!(content_length("POST / HTTP/1.1\r\ncontent-LENGTH:7"), 7);
    assert_eq!(content_length("POST / HTTP/1.1\r\nContent-Length: abc\r\nContent-Length: 9"), 9);
    assert_eq!(content_length("POST / HTTP/1.1\r\nContent-Length: +5"), 5);
    assert_eq!(content_length("POST / HTTP/1.1\r\nHost: example"), 0);
    assert_eq!(content_length(""), 0);
    assert_eq!(content_length("X: 1\n  Content-Length  :  12  \r\n"), 12);
    assert_eq!(content_length("Content-Length: -1"), 0);
    assert_eq!(content_length("Content-Length: 99999999999999999999999999"), 0);
}

#[test]
fn request_is_complete_once_body_arrives() {
    assert!(!request_complete(b"GET /menu HTTP/1.1\r\nHost: x"));
    assert!(request_complete(b"GET /menu HTTP/1.1\r\nHost: x\r\n\r\n"));
    assert!(!request_complete(b"POST /order HTTP/1.1\r\nContent-Length: 5\r\n\r\nab"));
    assert!(request_complete(b"POST /order HTTP/1.1\r\nContent-Length: 5\r\n\r\nabcde"));
    assert!(request_complete(b"POST /order HTTP/1.1\r\nContent-Length: 5\r\n\r\nabcdefg"));
}

#[test]
fn decode_request_replaces_invalid_bytes() {
    assert_eq!(decode_request(b"GET / HTTP/1.1"), "GET / HTTP/1.1");
    assert_eq!(decode_request(&[0x66, 0xFF, 0x6F]), "f\u{FFFD}o");
}

#[test]
fn request_parts_splits_first_line() {
    assert_eq!(request_parts("GET /menu HTTP/1.1\r\nHost: x\r\n\r\n"), vec!["GET", "/menu", "HTTP/1.1"]);
    assert_eq!(request_parts("  POST\t/order  \nrest"), vec!["POST", "/order"]);
    assert_eq!(request_parts(""), Vec::<String>::new());
    assert_eq!(request_parts("\r\nGET / HTTP/1.1"), Vec::<String>::new());
    assert_eq!(request_parts("GET\r"), vec!["GET"]);
}

#[test]
fn json_fields_are_extracted() {
    let body = r#"{"food": "Jollof Rice", "quantity": 3}"#;
    assert_eq!(json_string_field(body, "food"), Some("Jollof Rice".to_string()));
    assert_eq!(json_number_field(body, "quantity"), Some(3));
    assert_eq!(json_string_field(body, "drink"), None);
    assert_eq!(json_number_field(body, "food"), None);
    assert_eq!(json_number_field(r#"{"quantity":   0042}"#, "quantity"), Some(42));
    assert_eq!(json_number_field(r#"{"quantity": 99999999999999999999}"#, "quantity"), None);
    assert_eq!(json_number_field(r#"{"quantity": 18446744073709551615}"#, "quantity"), Some(u64::MAX));
    assert_eq!(json_string_field(r#"{"food" "x"}"#, "food"), None);
    assert_eq!(json_string_field(r#"{"food": "unterminated}"#, "food"), None);
}

#[test]
fn http_response_announces_length_and_closes() {
    assert_eq!(
        http_response("200 OK", "{}"),
        "HTTP/1.1 200 OK\r\nContent-Type: application/json\r\nContent-Length: 2\r\nConnection: close\r\n\r\n{}"
    );
    let r = http_response("404 Not Found", "héllo");
    assert!(r.contains("Content-Length: 6\r\n"));
    assert!(r.ends_with("\r\n\r\nhéllo"));
}

#[test]
fn response_header_announces_its_body_length() {
    for body in ["", "{}", "héllo wörld", "{\n  \"a\": 1\n}"] {
        let r = http_response("200 OK", body);
        let head_end = r.find("\r\n\r\n").unwrap();
        assert_eq!(content_length(&r[..head_end]), body.len());
        assert_eq!(&r[head_end + 4..], body);
    }
}

#[test]
fn complete_request_stays_complete_when_more_arrives() {
    let mut data = b"POST /order HTTP/1.1\r\nContent-Length: 3\r\n\r\nabc".to_vec();
    assert!(request_complete(&data));
    data.extend_from_slice(b"\r\n\r\nContent-Length: 999");
    assert!(request_complete(&data));
}

#[test]
fn response_splits_at_its_first_blank_line() {
    for status in ["200 OK", "418 Teapot: short and stout", "500 Odd\rStatus"] {
        for body in ["", "{\"a\":1}", "\r\n\r\nlooks like headers", "Content-Length: 99"] {
            let r = http_response(status, body);
            let (head, rest) = r.split_once("\r\n\r\n").unwrap();
            assert_eq!(
                head,
                format!(
                    "HTTP/1.1 {status}\r\nContent-Type: application/json\r\nContent-Length: {}\r\nConnection: close",
                    body.len()
                )
            );
            assert_eq!(rest, body);
            assert_eq!(content_length(head), body.len());
        }
    }
}
