use wrecv::error::{Error, ParseErrorKind};
use wrecv::fields::FieldValue;
use wrecv::message::{scan_header_boundary, RequestHeader, ResponseHeader, ResponseTrailer};

#[test]
fn test_scan_header_boundary_empty() {
    assert_eq!(scan_header_boundary(b""), None);
}

#[test]
fn test_scan_header_boundary_none() {
    assert_eq!(scan_header_boundary(b"abc"), None);
}

#[test]
fn test_scan_header_boundary_one_line() {
    assert_eq!(scan_header_boundary(b"abc\r\n\r\nxyz"), Some(7));
}

#[test]
fn test_scan_header_boundary_lines() {
    assert_eq!(scan_header_boundary(b"abc\r\ndef\r\n\r\nxyz"), Some(12));
}

#[test]
fn test_scan_header_boundary_whitespace() {
    assert_eq!(scan_header_boundary(b"abc\r\n \t \r\nxyz"), Some(10));
}

#[test]
fn scan_needs_a_line_feed() {
    assert_eq!(scan_header_boundary(b"abc\r\n   "), None);
    assert_eq!(scan_header_boundary(b"\n"), Some(1));
}

#[test]
fn test_parse_request() {
    let request =
        RequestHeader::parse("GET /index.html HTTP/1.1\r\nHost: example.com\r\n\r\n".as_bytes())
            .unwrap();

    assert_eq!(&request.method, "GET");
    assert_eq!(&request.uri, "/index.html");
    assert_eq!(&request.version, "HTTP/1.1");

    assert_eq!(request.fields.get("host"), Some(&FieldValue::from_text("example.com")));
}

#[test]
fn test_parse_response() {
    let response =
        ResponseHeader::parse("HTTP/1.1 200 OK\r\nContent-Length: 123\r\n\r\n".as_bytes()).unwrap();

    assert_eq!(&response.version, "HTTP/1.1");
    assert_eq!(response.status_code, 200);
    assert_eq!(&response.reason_phrase, "OK");

    assert_eq!(response.fields.get("content-length"), Some(&FieldValue::from_text("123")));
}

#[test]
fn test_parse_response_trailer() {
    let trailer = ResponseTrailer::parse("Abc: xyz\r\n\r\n".as_bytes()).unwrap();

    assert_eq!(trailer.fields.get("abc"), Some(&FieldValue::from_text("xyz")));
}

#[test]
fn parse_errors_are_distinct() {
    match RequestHeader::parse(b"GET /index.html HTTP/1.1\r\nHost: exa") {
        Err(Error::Parse(e)) => assert_eq!(e.kind(), ParseErrorKind::Incomplete),
        other => panic!("unexpected {:?}", other),
    }
    match RequestHeader::parse(b"GET /index.html FTP/9\r\n\r\n") {
        Err(Error::Parse(e)) => assert_eq!(e.kind(), ParseErrorKind::Malformed),
        other => panic!("unexpected {:?}", other),
    }
    match ResponseHeader::parse(b"HTTP/1.0 404 Not Found\r\n") {
        Err(Error::Parse(e)) => assert_eq!(e.kind(), ParseErrorKind::Incomplete),
        other => panic!("unexpected {:?}", other),
    }
    match ResponseTrailer::parse(b"Bad Header\r\n\r\n") {
        Err(Error::Parse(e)) => assert_eq!(e.kind(), ParseErrorKind::Malformed),
        other => panic!("unexpected {:?}", other),
    }
}

#[test]
fn response_http10_and_opaque_value() {
    let response = ResponseHeader::parse(b"HTTP/1.0 404 Not Found\r\nX: \xFF\r\n\r\n").unwrap();
    assert_eq!(&response.version, "HTTP/1.0");
    assert_eq!(response.status_code, 404);
    assert_eq!(&response.reason_phrase, "Not Found");
    assert_eq!(response.fields.get("x"), Some(&FieldValue::Opaque(vec![0xFF])));
}
