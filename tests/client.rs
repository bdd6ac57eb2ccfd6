use wrecv::client::{
    default_http_headers, default_user_agent, format_header_field, header_lines, mode_for_scheme,
};
use wrecv::error::{Error, NetworkError, OtherError, ProtocolError, ResolveFailure, TransportFailure};
use wrecv::fields::{FieldName, FieldValue, HeaderFields};
use wrecv::pool::{ConnectionPool, TransportHandle, MAX_HANDLES};
use wrecv::session::SessionMode;

#[test]
fn scheme_decides_mode() {
    assert_eq!(mode_for_scheme("http"), Some(SessionMode::Http));
    assert_eq!(mode_for_scheme("https"), Some(SessionMode::Http));
    assert_eq!(mode_for_scheme("ftp"), Some(SessionMode::Ftp));
    assert_eq!(mode_for_scheme("gopher"), None);
    assert_eq!(mode_for_scheme("HTTP"), None);
}

#[test]
fn header_lines_merge_defaults() {
    let mut defaults = HeaderFields::new();
    defaults.append("Accept", FieldValue::from_text("*/*"));
    defaults.append("X-Default", FieldValue::from_text("1"));
    let mut request = HeaderFields::new();
    request.append("accept", FieldValue::from_text("text/html"));
    request.append("X-Bin", FieldValue::Opaque(vec![0xFF]));
    assert_eq!(
        header_lines(&defaults, &request),
        vec!["X-Default:1", "accept:text/html", "X-Bin:\u{FFFD}\u{E01EF}"]
    );
    assert_eq!(
        format_header_field(&FieldName::new("Host"), &FieldValue::from_text("a")),
        "Host:a"
    );
}

#[test]
fn user_agent_text() {
    assert_eq!(
        default_user_agent(0, 12, 0x0008_0b01),
        "Mozilla/5.0 (compatible; not Gecko KHTML AppleWebKit Firefox Chrome Safari) wrecv/0.12 curl/8.11"
    );
    assert!(default_http_headers().is_empty());
}

#[test]
fn transport_errors_are_classified() {
    assert!(matches!(
        Error::from_transport(TransportFailure::CouldntConnect, "c".to_string()),
        Error::Network(NetworkError::Connect(_))
    ));
    assert!(matches!(
        Error::from_transport(TransportFailure::CouldntResolveProxy, "d".to_string()),
        Error::Network(NetworkError::Dns(_))
    ));
    assert!(matches!(
        Error::from_transport(TransportFailure::PeerFailedVerification, "t".to_string()),
        Error::Protocol(ProtocolError::TlsVerification(_))
    ));
    assert!(matches!(
        Error::from_transport(TransportFailure::OperationTimedOut, "o".to_string()),
        Error::Network(NetworkError::TimedOut(_))
    ));
    assert!(matches!(
        Error::from_transport(TransportFailure::Other, "x".to_string()),
        Error::Other(OtherError::Curl(_))
    ));
    assert!(matches!(
        Error::from_resolve(ResolveFailure::NoRecordsFound, "n".to_string()),
        Error::Network(NetworkError::Dns(_))
    ));
    assert!(matches!(
        Error::from_resolve(ResolveFailure::Other, "n".to_string()),
        Error::Other(OtherError::Trust(_))
    ));
}

#[derive(Debug, PartialEq)]
struct Handle {
    id: u32,
    dirty: bool,
}

impl TransportHandle for Handle {
    fn fresh() -> Self {
        Handle { id: 0, dirty: false }
    }

    fn reset(&mut self) {
        self.dirty = false;
    }
}

#[test]
fn pool_reuses_and_resets() {
    let pool: ConnectionPool<Handle> = ConnectionPool::new();
    assert_eq!(pool.len(), 0);
    assert_eq!(pool.put_curl_handle(Handle { id: 7, dirty: true }), (true, 0));
    let h = pool.get_curl_handle();
    assert_eq!(h, (Handle { id: 7, dirty: false }, 1, true));
    assert_eq!(pool.get_curl_handle(), (Handle { id: 0, dirty: false }, 0, false));
}

#[test]
fn pool_drops_surplus_handles() {
    let pool: ConnectionPool<Handle> = ConnectionPool::new();
    let shared = pool.clone();
    for id in 0..25 {
        let (kept, idle) = shared.put_curl_handle(Handle { id, dirty: false });
        assert_eq!(kept, (id as usize) < MAX_HANDLES);
        assert_eq!(idle, (id as usize).min(MAX_HANDLES));
    }
    assert_eq!(pool.len(), MAX_HANDLES);
    let taken: Vec<Handle> = (0..25).map(|_| pool.get_curl_handle().0).collect();
    assert_eq!(taken.len(), 25);
    assert_eq!(taken.iter().filter(|h| h.id == 0).count(), 6);
    assert_eq!(pool.len(), 0);
}
