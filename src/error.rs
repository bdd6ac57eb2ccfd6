//! The library's errors.
use vstd::prelude::*;
use crate::text::push_char;

verus! {

/// What kind of failure a parse error reports.
#[derive(Debug, Clone, Copy, PartialEq, Eq, Structural)]
pub enum ParseErrorKind {
    /// The input is not well formed.
    Malformed,
    /// The input ended before what was being parsed did.
    Incomplete,
}

/// A failed parse: its kind, a reason, and where it happened if known.
#[derive(Debug)]
pub struct ParseError {
    kind: ParseErrorKind,
    reason: String,
    position: Option<u64>,
    snippet: Option<String>,
    source: Option<String>,
}

impl ParseError {
    pub closed spec fn spec_kind(&self) -> ParseErrorKind {
        self.kind
    }

    pub closed spec fn spec_reason(&self) -> Seq<char> {
        self.reason@
    }

    pub closed spec fn spec_position(&self) -> Option<u64> {
        self.position
    }

    pub closed spec fn spec_snippet(&self) -> Option<Seq<char>> {
        match self.snippet {
            Some(s) => Some(s@),
            None => None,
        }
    }

    pub closed spec fn spec_source(&self) -> Option<Seq<char>> {
        match self.source {
            Some(s) => Some(s@),
            None => None,
        }
    }

    /// A malformed-input error with the given reason.
    pub fn new(reason: &str) -> (r: ParseError)
        ensures
            r.spec_kind() == ParseErrorKind::Malformed,
            r.spec_reason() == reason@,
            r.spec_position() is None,
            r.spec_snippet() is None,
            r.spec_source() is None,
    {
        ParseError {
            kind: ParseErrorKind::Malformed,
            reason: reason.to_owned(),
            position: None,
            snippet: None,
            source: None,
        }
    }

    /// An error for input that ended too early, with the given reason.
    pub fn incomplete(reason: &str) -> (r: ParseError)
        ensures
            r.spec_kind() == ParseErrorKind::Incomplete,
            r.spec_reason() == reason@,
            r.spec_position() is None,
            r.spec_snippet() is None,
            r.spec_source() is None,
    {
        ParseError {
            kind: ParseErrorKind::Incomplete,
            reason: reason.to_owned(),
            position: None,
            snippet: None,
            source: None,
        }
    }

    pub fn with_position(self, position: u64) -> (r: ParseError)
        ensures
            r.spec_position() == Some(position),
            r.spec_kind() == self.spec_kind(),
            r.spec_reason() == self.spec_reason(),
            r.spec_snippet() == self.spec_snippet(),
            r.spec_source() == self.spec_source(),
    {
        ParseError { position: Some(position), ..self }
    }

    /// Records a char position in `text`, with the up to five chars that
    /// start there as a snippet.
    pub fn with_str_position(self, char_position: u64, text: &str) -> (r: ParseError)
        ensures
            r.spec_position() == Some(char_position),
            r.spec_snippet() == Some(
                text@.subrange(
                    if char_position < text@.len() { char_position as int } else { text@.len() as int },
                    if char_position + 5 < text@.len() { char_position + 5 } else { text@.len() as int },
                ),
            ),
            r.spec_kind() == self.spec_kind(),
            r.spec_reason() == self.spec_reason(),
            r.spec_source() == self.spec_source(),
    {
        let cs = crate::escape::chars_of(text);
        let n = cs.len();
        let start: usize = if (char_position as u128) < (n as u128) { char_position as usize } else { n };
        let end: usize = if n - start > 5 { start + 5 } else { n };
        let mut snippet = String::new();
        let mut i: usize = start;
        while i < end
            invariant
                cs@ == text@,
                start <= i <= end <= cs@.len(),
                snippet@ == cs@.subrange(start as int, i as int),
            decreases end - i,
        {
            push_char(&mut snippet, cs[i]);
            assert(cs@.subrange(start as int, i + 1) =~= cs@.subrange(start as int, i as int).push(
                cs@[i as int],
            ));
            i += 1;
        }
        ParseError { position: Some(char_position), snippet: Some(snippet), ..self }
    }

    /// Records a description of the underlying cause.
    pub fn with_source(self, source: &str) -> (r: ParseError)
        ensures
            r.spec_source() == Some(source@),
            r.spec_kind() == self.spec_kind(),
            r.spec_reason() == self.spec_reason(),
            r.spec_position() == self.spec_position(),
            r.spec_snippet() == self.spec_snippet(),
    {
        ParseError { source: Some(source.to_owned()), ..self }
    }

    pub fn kind(&self) -> (r: ParseErrorKind)
        ensures
            r == self.spec_kind(),
    {
        self.kind
    }

    pub fn reason(&self) -> (r: &str)
        ensures
            r@ == self.spec_reason(),
    {
        self.reason.as_str()
    }

    pub fn position(&self) -> (r: Option<u64>)
        ensures
            r == self.spec_position(),
    {
        self.position
    }

    pub fn snippet(&self) -> (r: Option<&str>)
        ensures
            r is Some <==> self.spec_snippet() is Some,
            r matches Some(s) ==> Some(s@) == self.spec_snippet(),
    {
        match &self.snippet {
            Some(s) => Some(s.as_str()),
            None => None,
        }
    }

    pub fn source(&self) -> (r: Option<&str>)
        ensures
            r is Some <==> self.spec_source() is Some,
            r matches Some(s) ==> Some(s@) == self.spec_source(),
    {
        match &self.source {
            Some(s) => Some(s.as_str()),
            None => None,
        }
    }
}

/// Protocol-level failures.
#[derive(Debug)]
pub enum ProtocolError {
    InvalidRequest(String),
    InvalidResponse(String),
    TlsVerification(String),
    Custom(String),
}

/// Network-level failures.
#[derive(Debug)]
pub enum NetworkError {
    Connect(String),
    Dns(String),
    TimedOut(String),
    Disconnected(String),
    Custom(String),
}

/// Failures that fit no other category, by where they came from.
#[derive(Debug)]
pub enum OtherError {
    /// The transport engine reported it.
    Curl(String),
    /// The DNS resolver reported it.
    Trust(String),
    /// Anything else, such as a session handler's own failure.
    Custom(String),
}

/// Every failure the library reports.
#[derive(Debug)]
pub enum Error {
    UnsupportedFeature { feature: String },
    InvalidArgument { value: String, reason: String },
    Parse(ParseError),
    Protocol(ProtocolError),
    Network(NetworkError),
    Io(String),
    Other(OtherError),
}

/// The kinds of failure that the transport engine distinguishes.
#[derive(Debug, Clone, Copy, PartialEq, Eq, Structural)]
pub enum TransportFailure {
    CouldntConnect,
    CouldntResolveHost,
    CouldntResolveProxy,
    SslConnectError,
    SslCertProblem,
    PeerFailedVerification,
    SslIssuerError,
    OperationTimedOut,
    Other,
}

/// The kinds of failure that the DNS resolver distinguishes.
#[derive(Debug, Clone, Copy, PartialEq, Eq, Structural)]
pub enum ResolveFailure {
    NoConnections,
    Timeout,
    NoRecordsFound,
    Other,
}

/// Whether `e` is the error that a transport failure of `kind` with
/// description `d` is classified as.
pub open spec fn is_transport_error(kind: TransportFailure, d: Seq<char>, e: Error) -> bool {
    match kind {
        TransportFailure::CouldntConnect => e matches Error::Network(NetworkError::Connect(m)) && m@
            == d,
        TransportFailure::CouldntResolveHost | TransportFailure::CouldntResolveProxy => e matches Error::Network(
            NetworkError::Dns(m),
        ) && m@ == d,
        TransportFailure::SslConnectError | TransportFailure::SslCertProblem
        | TransportFailure::PeerFailedVerification
        | TransportFailure::SslIssuerError => e matches Error::Protocol(
            ProtocolError::TlsVerification(m),
        ) && m@ == d,
        TransportFailure::OperationTimedOut => e matches Error::Network(NetworkError::TimedOut(m))
            && m@ == d,
        TransportFailure::Other => e matches Error::Other(OtherError::Curl(m)) && m@ == d,
    }
}

/// Whether `e` is the error that a resolver failure of `kind` with
/// description `d` is classified as.
pub open spec fn is_resolve_error(kind: ResolveFailure, d: Seq<char>, e: Error) -> bool {
    match kind {
        ResolveFailure::NoConnections | ResolveFailure::NoRecordsFound => e matches Error::Network(
            NetworkError::Dns(m),
        ) && m@ == d,
        ResolveFailure::Timeout => e matches Error::Network(NetworkError::TimedOut(m)) && m@ == d,
        ResolveFailure::Other => e matches Error::Other(OtherError::Trust(m)) && m@ == d,
    }
}

impl Error {
    /// Classifies a transport failure: connection, DNS, TLS verification,
    /// timeout, or other.
    pub fn from_transport(kind: TransportFailure, description: String) -> (r: Error)
        ensures
            is_transport_error(kind, description@, r),
    {
        match kind {
            TransportFailure::CouldntConnect => Error::Network(NetworkError::Connect(description)),
            TransportFailure::CouldntResolveHost | TransportFailure::CouldntResolveProxy => {
                Error::Network(NetworkError::Dns(description))
            },
            TransportFailure::SslConnectError | TransportFailure::SslCertProblem
            | TransportFailure::PeerFailedVerification | TransportFailure::SslIssuerError => {
                Error::Protocol(ProtocolError::TlsVerification(description))
            },
            TransportFailure::OperationTimedOut => Error::Network(NetworkError::TimedOut(description)),
            TransportFailure::Other => Error::Other(OtherError::Curl(description)),
        }
    }

    /// Classifies a DNS resolver failure.
    pub fn from_resolve(kind: ResolveFailure, description: String) -> (r: Error)
        ensures
            is_resolve_error(kind, description@, r),
    {
        match kind {
            ResolveFailure::NoConnections | ResolveFailure::NoRecordsFound => Error::Network(
                NetworkError::Dns(description),
            ),
            ResolveFailure::Timeout => Error::Network(NetworkError::TimedOut(description)),
            ResolveFailure::Other => Error::Other(OtherError::Trust(description)),
        }
    }
}

} // verus!
