use wrecv::connect::{
    parse_connect_address, parse_ip, parse_ipv4, parse_ipv6, parse_port, IpAddress, Ipv4Address,
    Ipv6Address, SocketAddress,
};
use wrecv::error::{Error, OtherError};
use wrecv::session::{
    CallbackHandler, CurlSessionControl, InfoKind, SessionControl, SessionEvent, SessionHandler,
    SessionMode,
};

#[derive(Default)]
struct Recorder {
    events: Vec<String>,
    fail_on: Option<&'static str>,
    abort_on: Option<&'static str>,
    upload: Vec<u8>,
}

fn name_of(event: &SessionEvent) -> String {
    match event {
        SessionEvent::Connected(a) => match a.ip {
            IpAddress::V4(v) => format!("connected {}.{}.{}.{}:{}", v.a, v.b, v.c, v.d, a.port),
            IpAddress::V6(v) => format!("connected [{:x}::{:x}]:{}", v.g0, v.g7, a.port),
        },
        SessionEvent::HeaderReceived(_) => "header-received".to_string(),
        SessionEvent::HeaderSent(_) => "header-sent".to_string(),
        SessionEvent::BodyReceived(_) => "body-received".to_string(),
        SessionEvent::BodySent(_) => "body-sent".to_string(),
        SessionEvent::ContentSent(d) => format!("content-sent {}", d.len()),
        SessionEvent::ContentReceived(d) => format!("content-received {}", d.len()),
        SessionEvent::HttpRequest(_, r) => format!("request {} {}", r.method, r.uri),
        SessionEvent::HttpResponse(_, r) => format!("response {}", r.status_code),
        SessionEvent::HttpResponseTrailer(_, t) => format!("trailer {}", t.fields.len()),
        SessionEvent::Progress { download_current, .. } => format!("progress {}", download_current),
    }
}

impl SessionHandler for Recorder {
    fn upload_content(
        &mut self,
        _control: &mut CurlSessionControl,
        buf: &mut [u8],
    ) -> Result<usize, Error> {
        let n = self.upload.len().min(buf.len());
        buf[..n].copy_from_slice(&self.upload[..n]);
        self.upload.drain(..n);
        Ok(n)
    }

    fn event(&mut self, control: &mut CurlSessionControl, event: SessionEvent) -> Result<(), Error> {
        let name = name_of(&event);
        self.events.push(name.clone());
        if self.abort_on.map_or(false, |p| name.starts_with(p)) {
            control.abort();
        }
        if self.fail_on.map_or(false, |p| name.starts_with(p)) {
            return Err(Error::Other(OtherError::Custom(format!("failed at {}", name))));
        }
        Ok(())
    }
}

fn run_exchange(handler: &mut CallbackHandler<Recorder>) {
    handler.debug_function(InfoKind::Text, b"Trying 127.0.0.1:8080...");
    handler.debug_function(InfoKind::Text, b"Connected to localhost (127.0.0.1) port 8080 (#0)\n");
    handler.debug_function(InfoKind::HeaderOut, b"GET / HTTP/1.1\r\nHost: localhost\r\n");
    handler.debug_function(InfoKind::HeaderOut, b"\r\n");
    assert!(handler.progress_function(0, 0, 0, 0));
    handler.header_function(b"HTTP/1.1 200 OK\r\n");
    handler.header_function(b"Content-Length: 12\r\n");
    handler.header_function(b"\r\n");
    handler.debug_function(InfoKind::HeaderIn, b"ignored");
    handler.debug_function(InfoKind::DataIn, b"Hello world!");
    handler.write_function(b"Hello world!");
    handler.header_function(b"X-Trailer: 1\r\n");
    handler.header_function(b"\r\n");
    handler.progress_function(12, 12, 0, 0);
}

#[test]
fn http_exchange_events_in_order() {
    let mut handler = CallbackHandler::new(Recorder::default(), SessionMode::Http);
    run_exchange(&mut handler);
    let (recorder, result) = handler.finish(Ok(()));
    assert!(result.is_ok());
    assert_eq!(
        recorder.events,
        vec![
            "connected 127.0.0.1:8080",
            "header-sent",
            "header-sent",
            "request GET /",
            "progress 0",
            "header-received",
            "header-received",
            "header-received",
            "response 200",
            "body-received",
            "content-received 12",
            "header-received",
            "header-received",
            "trailer 1",
            "progress 12",
        ]
    );
}

#[test]
fn ftp_session_frames_nothing() {
    let mut handler = CallbackHandler::new(Recorder::default(), SessionMode::Ftp);
    handler.debug_function(InfoKind::HeaderOut, b"USER anonymous\r\n\r\n");
    handler.header_function(b"220 Welcome\r\n\r\n");
    assert_eq!(handler.write_function(b"data"), 4);
    let (recorder, result) = handler.finish(Ok(()));
    assert!(result.is_ok());
    assert_eq!(recorder.events, vec!["header-sent", "header-received", "content-received 4"]);
}

#[test]
fn handler_error_is_session_result() {
    let recorder = Recorder { fail_on: Some("content-received"), ..Recorder::default() };
    let mut handler = CallbackHandler::new(recorder, SessionMode::Http);
    assert_eq!(handler.write_function(b"abc"), 0);
    assert!(!handler.progress_function(1, 1, 0, 0));
    let transport = Err(Error::Other(OtherError::Curl("write error".to_string())));
    let (recorder, result) = handler.finish(transport);
    match result {
        Err(Error::Other(OtherError::Custom(m))) => assert_eq!(m, "failed at content-received 3"),
        other => panic!("unexpected {:?}", other),
    }
    assert_eq!(recorder.events, vec!["content-received 3", "progress 1"]);
}

#[test]
fn first_error_is_kept() {
    let recorder = Recorder { fail_on: Some("progress"), ..Recorder::default() };
    let mut handler = CallbackHandler::new(recorder, SessionMode::Http);
    assert!(!handler.progress_function(1, 0, 0, 0));
    assert!(!handler.progress_function(2, 0, 0, 0));
    let (_recorder, result) = handler.finish(Ok(()));
    match result {
        Err(Error::Other(OtherError::Custom(m))) => assert_eq!(m, "failed at progress 0"),
        other => panic!("unexpected {:?}", other),
    }
}

#[test]
fn abort_stops_the_transport() {
    let recorder = Recorder { abort_on: Some("content-received"), ..Recorder::default() };
    let mut handler = CallbackHandler::new(recorder, SessionMode::Http);
    assert_eq!(handler.write_function(b"abc"), 0);
    let mut buf = [0u8; 4];
    assert_eq!(handler.read_function(&mut buf), None);
    let (_recorder, result) = handler.finish(Ok(()));
    assert!(result.is_ok());
}

#[test]
fn transport_error_when_handler_is_fine() {
    let handler = CallbackHandler::new(Recorder::default(), SessionMode::Http);
    let (_recorder, result) = handler.finish(Err(Error::Other(OtherError::Curl("x".to_string()))));
    assert!(matches!(result, Err(Error::Other(OtherError::Curl(_)))));
}

#[test]
fn upload_content_is_forwarded() {
    let recorder = Recorder { upload: b"hello".to_vec(), ..Recorder::default() };
    let mut handler = CallbackHandler::new(recorder, SessionMode::Http);
    let mut buf = [0u8; 3];
    assert_eq!(handler.read_function(&mut buf), Some(3));
    assert_eq!(&buf, b"hel");
    assert_eq!(handler.read_function(&mut buf), Some(2));
    assert_eq!(handler.read_function(&mut buf), Some(0));
    let (recorder, _) = handler.finish(Ok(()));
    assert_eq!(recorder.events, vec!["content-sent 3", "content-sent 2", "content-sent 0"]);
}

#[test]
fn malformed_response_aborts_with_parse_error() {
    let mut handler = CallbackHandler::new(Recorder::default(), SessionMode::Http);
    handler.debug_function(InfoKind::HeaderOut, b"GET / HTTP/1.1\r\n\r\n");
    assert!(!handler.header_function(b"HTTQ/1.1 200 OK\r\n\r\n"));
    let (_recorder, result) = handler.finish(Ok(()));
    assert!(matches!(result, Err(Error::Parse(_))));
}

#[test]
fn test_parse_connect_address() {
    let result = parse_connect_address("Connected to 127.0.0.1 (127.0.0.1) port 39753 (#0)\n");
    let expect = Some(SocketAddress { ip: IpAddress::V4(Ipv4Address { a: 127, b: 0, c: 0, d: 1 }), port: 39753 });
    assert_eq!(result, expect);
}

#[test]
fn connect_address_needs_the_pattern() {
    assert_eq!(parse_connect_address("Trying 127.0.0.1:80..."), None);
    assert_eq!(parse_connect_address("Connected to h (::1) port 99999 (#0)"), None);
    assert_eq!(parse_connect_address("Connected to h (1.2.3) port 80 (#1)"), None);
    assert_eq!(parse_connect_address("Connected to h (1::2::3) port 443 (#1)"), None);
    assert_eq!(
        parse_connect_address("Connected to h (::1) port 443 (#1)"),
        Some(SocketAddress { ip: IpAddress::V6(v6([0, 0, 0, 0, 0, 0, 0, 1])), port: 443 })
    );
    assert_eq!(
        parse_connect_address("Connected to h (10.0.0.255) port 443 (#1)"),
        Some(SocketAddress { ip: IpAddress::V4(Ipv4Address { a: 10, b: 0, c: 0, d: 255 }), port: 443 })
    );
}

#[test]
fn port_parsing() {
    assert_eq!(parse_port("0"), Some(0));
    assert_eq!(parse_port("65535"), Some(65535));
    assert_eq!(parse_port("65536"), None);
    assert_eq!(parse_port(""), None);
    assert_eq!(parse_port("8a"), None);
}

#[test]
fn control_abort_sets_flag() {
    let mut control = CurlSessionControl::new();
    assert!(!control.is_aborted());
    control.abort();
    assert!(control.is_aborted());
}

struct Quiet;

impl SessionHandler for Quiet {}

#[test]
fn default_handler_accepts_everything() {
    let mut handler = CallbackHandler::new(Quiet, SessionMode::Http);
    let mut buf = [0u8; 8];
    assert_eq!(handler.read_function(&mut buf), Some(0));
    assert_eq!(handler.write_function(b"abc"), 3);
    assert!(handler.header_function(b"HTTP/1.1 204 No Content\r\n\r\n"));
    let (_quiet, result) = handler.finish(Ok(()));
    assert!(result.is_ok());
}

#[test]
fn ipv4_parsing() {
    assert_eq!(parse_ipv4("192.168.1.20"), Some(Ipv4Address { a: 192, b: 168, c: 1, d: 20 }));
    assert_eq!(parse_ipv4("0.0.0.0"), Some(Ipv4Address { a: 0, b: 0, c: 0, d: 0 }));
    assert_eq!(parse_ipv4("256.1.1.1"), None);
    assert_eq!(parse_ipv4("01.1.1.1"), None);
    assert_eq!(parse_ipv4("1.1.1"), None);
    assert_eq!(parse_ipv4("1.1.1.1.1"), None);
    assert_eq!(parse_ipv4("1..1.1"), None);
    assert_eq!(parse_ipv4(""), None);
}

#[test]
fn connect_line_with_bad_address_gives_no_event() {
    let mut handler = CallbackHandler::new(Recorder::default(), SessionMode::Http);
    handler.debug_function(InfoKind::Text, b"Connected to h (1.2.3) port 80 (#0)");
    let (recorder, _) = handler.finish(Ok(()));
    assert!(recorder.events.is_empty());
}

#[test]
fn incomplete_request_head_is_kept_then_parsed() {
    let mut handler = CallbackHandler::new(Recorder::default(), SessionMode::Http);
    handler.debug_function(InfoKind::HeaderOut, b"GET /a HTTP/1.1\r\n");
    handler.debug_function(InfoKind::HeaderOut, b"Host: x\r\n");
    handler.debug_function(InfoKind::HeaderOut, b"\r\n");
    handler.header_function(b"X: 1\r\n");
    let (recorder, result) = handler.finish(Ok(()));
    assert!(result.is_ok());
    assert_eq!(
        recorder.events,
        vec!["header-sent", "header-sent", "header-sent", "request GET /a", "header-received"]
    );
}

fn v6(g: [u16; 8]) -> Ipv6Address {
    Ipv6Address { g0: g[0], g1: g[1], g2: g[2], g3: g[3], g4: g[4], g5: g[5], g6: g[6], g7: g[7] }
}

#[test]
fn ipv6_parsing() {
    assert_eq!(parse_ipv6("::1"), Some(v6([0, 0, 0, 0, 0, 0, 0, 1])));
    assert_eq!(parse_ipv6("::"), Some(v6([0; 8])));
    assert_eq!(parse_ipv6("1:2:3:4:5:6:7:8"), Some(v6([1, 2, 3, 4, 5, 6, 7, 8])));
    assert_eq!(parse_ipv6("fe80::1:2"), Some(v6([0xfe80, 0, 0, 0, 0, 0, 1, 2])));
    assert_eq!(parse_ipv6("1::"), Some(v6([1, 0, 0, 0, 0, 0, 0, 0])));
    assert_eq!(parse_ipv6("::ffff:1.2.3.4"), Some(v6([0, 0, 0, 0, 0, 0xffff, 0x0102, 0x0304])));
    assert_eq!(parse_ipv6("1:2:3:4:5:6:1.2.3.4"), Some(v6([1, 2, 3, 4, 5, 6, 0x0102, 0x0304])));
    assert_eq!(parse_ipv6("2001:DB8::8:800:200C:417A"), Some(v6([0x2001, 0xdb8, 0, 0, 8, 0x800, 0x200c, 0x417a])));
    for bad in [
        "", ":", "1:2", ":1", "1:", "1:::2", "1::2::3", "12345::", "1:2:3:4:5:6:7:8:9",
        "1.2.3.4::", "1:2:3:4:5:6:7::8", "::1.2.3", "g::1",
    ] {
        assert_eq!(parse_ipv6(bad), None, "{}", bad);
    }
    assert_eq!(parse_ip("1.2.3.4"), Some(IpAddress::V4(Ipv4Address { a: 1, b: 2, c: 3, d: 4 })));
    assert_eq!(parse_ip("::2"), Some(IpAddress::V6(v6([0, 0, 0, 0, 0, 0, 0, 2]))));
    assert_eq!(parse_ip("x"), None);
}

#[test]
fn raw_header_failure_skips_framing() {
    let recorder = Recorder { fail_on: Some("header-sent"), ..Recorder::default() };
    let mut handler = CallbackHandler::new(recorder, SessionMode::Http);
    handler.debug_function(InfoKind::HeaderOut, b"GET / HTTP/1.1\r\n\r\n");
    let (recorder, result) = handler.finish(Ok(()));
    assert_eq!(recorder.events, vec!["header-sent"]);
    match result {
        Err(Error::Other(OtherError::Custom(m))) => assert_eq!(m, "failed at header-sent"),
        other => panic!("unexpected {:?}", other),
    }
}

#[test]
fn upload_failure_aborts_read() {
    struct Failing;
    impl SessionHandler for Failing {
        fn upload_content(
            &mut self,
            _control: &mut CurlSessionControl,
            _buf: &mut [u8],
        ) -> Result<usize, Error> {
            Err(Error::Io("disk".to_string()))
        }
    }
    let mut handler = CallbackHandler::new(Failing, SessionMode::Http);
    let mut buf = [0u8; 4];
    assert_eq!(handler.read_function(&mut buf), None);
    let (_h, result) = handler.finish(Ok(()));
    assert!(matches!(result, Err(Error::Io(m)) if m == "disk"));
}

#[test]
fn handler_abort_flag_stops_without_error() {
    let recorder = Recorder { abort_on: Some("progress"), ..Recorder::default() };
    let mut handler = CallbackHandler::new(recorder, SessionMode::Http);
    assert!(!handler.progress_function(0, 0, 0, 0));
    let (_r, result) = handler.finish(Ok(()));
    assert!(result.is_ok());
}
