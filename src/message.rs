//! Framing and parsing of HTTP header blocks.
use vstd::prelude::*;
use crate::error::{Error, ParseError, ParseErrorKind};
use crate::fields::{FieldValue, HeaderFields};
use crate::text::{decimal_text, push_decimal, push_str};

verus! {

broadcast use vstd::seq_lib::group_seq_properties;

/// Whether `b` is ASCII whitespace: space, tab, line feed, form feed or
/// carriage return.
pub open spec fn is_ascii_space(b: u8) -> bool {
    b == 0x20 || b == 0x09 || b == 0x0A || b == 0x0C || b == 0x0D
}

/// Where the line that holds position `k` of `d` starts: just after the
/// last line feed before `k`, or 0.
pub open spec fn line_start(d: Seq<u8>, k: int) -> int
    decreases k,
{
    if k <= 0 {
        0
    } else if d[k - 1] == 0x0A {
        k
    } else {
        line_start(d, k - 1)
    }
}

/// Whether `d` has, just before offset `e`, a line feed that ends a line
/// made of whitespace alone.
pub open spec fn ends_blank_line(d: Seq<u8>, e: int) -> bool {
    &&& 1 <= e <= d.len()
    &&& d[e - 1] == 0x0A
    &&& forall|j: int| line_start(d, e - 1) <= j < e ==> is_ascii_space(#[trigger] d[j])
}

/// The offset just after the first line of `data` that is whitespace alone
/// and ends in a line feed: the end of a header block. `None` while no such
/// line has arrived.
pub fn scan_header_boundary(data: &[u8]) -> (r: Option<usize>)
    ensures
        r matches Some(e) ==> ends_blank_line(data@, e as int) && forall|k: int|
            0 <= k < e ==> !ends_blank_line(data@, k),
        r is None ==> forall|k: int| !ends_blank_line(data@, k),
{
    let mut start: usize = 0;
    let mut blank = true;
    let mut i: usize = 0;
    while i < data.len()
        invariant
            i <= data@.len(),
            start == line_start(data@, i as int),
            start <= i,
            blank == forall|j: int| start <= j < i ==> is_ascii_space(#[trigger] data@[j]),
            forall|k: int| 0 <= k <= i ==> !ends_blank_line(data@, k),
        decreases data@.len() - i,
    {
        let b = data[i];
        let space = b == 0x20 || b == 0x09 || b == 0x0A || b == 0x0C || b == 0x0D;
        blank = blank && space;
        if b == 0x0A {
            if blank {
                assert(ends_blank_line(data@, i + 1));
                return Some(i + 1);
            }
            assert(!ends_blank_line(data@, i + 1));
            start = i + 1;
            blank = true;
        } else {
            assert(!ends_blank_line(data@, i + 1));
        }
        i += 1;
    }
    None
}


/// How many fields a header block may hold.
pub const MAX_FIELDS: usize = 128;

/// Raw fields as the parser hands them over: names, and values as bytes.
pub type RawFields = Vec<(String, Vec<u8>)>;

/// What a request head parse hands back: `None` for invalid bytes,
/// `Some(None)` for bytes that end too early, else the method, target,
/// minor version and fields.
pub type RawRequest = Option<Option<(String, String, u8, RawFields)>>;

/// What a response head parse hands back: `None` for invalid bytes,
/// `Some(None)` for bytes that end too early, else the minor version, status
/// code, reason phrase and fields.
pub type RawResponse = Option<Option<(u8, u16, String, RawFields)>>;

/// What a field block parse hands back: `None` for invalid bytes,
/// `Some(None)` for bytes that end too early, else the fields.
pub type RawTrailer = Option<Option<RawFields>>;

/// The plain value of raw fields.
pub open spec fn raw_fields_view(v: Seq<(String, Vec<u8>)>) -> Seq<(Seq<char>, Seq<u8>)> {
    v.map_values(|p: (String, Vec<u8>)| (p.0@, p.1@))
}

pub open spec fn raw_request_view(r: RawRequest) -> Option<
    Option<(Seq<char>, Seq<char>, u8, Seq<(Seq<char>, Seq<u8>)>)>,
> {
    match r {
        None => None,
        Some(None) => Some(None),
        Some(Some(h)) => Some(Some((h.0@, h.1@, h.2, raw_fields_view(h.3@)))),
    }
}

pub open spec fn raw_response_view(r: RawResponse) -> Option<
    Option<(u8, u16, Seq<char>, Seq<(Seq<char>, Seq<u8>)>)>,
> {
    match r {
        None => None,
        Some(None) => Some(None),
        Some(Some(h)) => Some(Some((h.0, h.1, h.2@, raw_fields_view(h.3@)))),
    }
}

pub open spec fn raw_trailer_view(r: RawTrailer) -> Option<Option<Seq<(Seq<char>, Seq<u8>)>>> {
    match r {
        None => None,
        Some(None) => Some(None),
        Some(Some(f)) => Some(Some(raw_fields_view(f@))),
    }
}

/// What `httparse::Request::parse` makes of a byte sequence.
pub uninterp spec fn request_head_of(data: Seq<u8>) -> Option<
    Option<(Seq<char>, Seq<char>, u8, Seq<(Seq<char>, Seq<u8>)>)>,
>;

/// What `httparse::Response::parse` makes of a byte sequence.
pub uninterp spec fn response_head_of(data: Seq<u8>) -> Option<
    Option<(u8, u16, Seq<char>, Seq<(Seq<char>, Seq<u8>)>)>,
>;

/// What `httparse::parse_headers` makes of a byte sequence.
pub uninterp spec fn field_block_of(data: Seq<u8>) -> Option<Option<Seq<(Seq<char>, Seq<u8>)>>>;

/// Relies on `httparse::Request::parse` with room for `MAX_FIELDS` fields.
#[verifier::external_body]
fn parse_request_head(data: &[u8]) -> (r: RawRequest)
    ensures
        raw_request_view(r) == request_head_of(data@),
{
    let mut headers = [httparse::EMPTY_HEADER; MAX_FIELDS];
    let mut req = httparse::Request::new(&mut headers);
    match req.parse(data) {
        Err(_) => None,
        Ok(httparse::Status::Partial) => Some(None),
        Ok(httparse::Status::Complete(_)) => Some(Some((
            req.method.unwrap_or_default().to_string(),
            req.path.unwrap_or_default().to_string(),
            req.version.unwrap_or_default(),
            req.headers.iter().map(|h| (h.name.to_string(), h.value.to_vec())).collect(),
        ))),
    }
}

/// Relies on `httparse::Response::parse` with room for `MAX_FIELDS` fields.
#[verifier::external_body]
fn parse_response_head(data: &[u8]) -> (r: RawResponse)
    ensures
        raw_response_view(r) == response_head_of(data@),
{
    let mut headers = [httparse::EMPTY_HEADER; MAX_FIELDS];
    let mut resp = httparse::Response::new(&mut headers);
    match resp.parse(data) {
        Err(_) => None,
        Ok(httparse::Status::Partial) => Some(None),
        Ok(httparse::Status::Complete(_)) => Some(Some((
            resp.version.unwrap_or_default(),
            resp.code.unwrap_or_default(),
            resp.reason.unwrap_or_default().to_string(),
            resp.headers.iter().map(|h| (h.name.to_string(), h.value.to_vec())).collect(),
        ))),
    }
}

/// Relies on `httparse::parse_headers` with room for `MAX_FIELDS` fields.
#[verifier::external_body]
fn parse_field_block(data: &[u8]) -> (r: RawTrailer)
    ensures
        raw_trailer_view(r) == field_block_of(data@),
{
    let mut headers = [httparse::EMPTY_HEADER; MAX_FIELDS];
    match httparse::parse_headers(data, &mut headers) {
        Err(_) => None,
        Ok(httparse::Status::Partial) => Some(None),
        Ok(httparse::Status::Complete((_, fields))) => Some(Some(
            fields.iter().map(|h| (h.name.to_string(), h.value.to_vec())).collect(),
        )),
    }
}

/// Whether `fields` holds exactly the raw fields `raw`, in order, each value
/// taken as text when its bytes are valid UTF-8.
pub open spec fn fields_from_raw(
    fields: Seq<(crate::fields::FieldName, FieldValue)>,
    raw: Seq<(Seq<char>, Seq<u8>)>,
) -> bool {
    &&& fields.len() == raw.len()
    &&& forall|i: int|
        0 <= i < raw.len() ==> (#[trigger] fields[i]).0@ == raw[i].0 && FieldValue::of_bytes(
            raw[i].1,
            fields[i].1,
        )
}

/// The text of an HTTP/1.x version with the given minor version.
pub open spec fn version_text(minor: u8) -> Seq<char> {
    "HTTP/1."@ + decimal_text(minor as nat)
}

/// Builds the field list from raw fields.
fn fields_from(raw: RawFields) -> (r: HeaderFields)
    ensures
        fields_from_raw(r@, raw_fields_view(raw@)),
{
    let ghost s = raw@;
    let mut fields = HeaderFields::new();
    for entry in it: raw.into_iter()
        invariant
            it.seq() == s,
            fields_from_raw(fields@, raw_fields_view(s.take(it.index() as int))),
    {
        let ghost before = fields@;
        let (name, value) = entry;
        fields.append(name.as_str(), FieldValue::from_vec(value));
        proof {
            let t = raw_fields_view(s.take(it.index() + 1));
            assert(t =~= raw_fields_view(s.take(it.index() as int)).push((name@, value@)));
            assert forall|i: int| 0 <= i < t.len() implies (#[trigger] fields@[i]).0@ == t[i].0
                && FieldValue::of_bytes(t[i].1, fields@[i].1) by {
                if i < before.len() {
                    assert(fields@[i] == fields@.take(before.len() as int)[i]);
                }
            }
        }
    }
    assert(s.take(s.len() as int) =~= s);
    fields
}

/// The version text for minor version `minor`.
fn version_string(minor: u8) -> (r: String)
    ensures
        r@ == version_text(minor),
{
    let mut text = String::new();
    push_str(&mut text, "HTTP/1.");
    push_decimal(&mut text, minor as u64);
    assert(text@ =~= version_text(minor));
    text
}

/// A parsed request head.
#[derive(Debug)]
pub struct RequestHeader {
    pub method: String,
    pub uri: String,
    pub version: String,
    pub fields: HeaderFields,
}

/// Whether `r` is what parsing a request head that `raw` describes gives.
pub open spec fn request_result(
    raw: Option<Option<(Seq<char>, Seq<char>, u8, Seq<(Seq<char>, Seq<u8>)>)>>,
    r: Result<RequestHeader, Error>,
) -> bool {
    match raw {
        None => r matches Err(Error::Parse(e)) && e.spec_kind() == ParseErrorKind::Malformed
            && e.spec_reason() == "HTTP request header parse error"@,
        Some(None) => r matches Err(Error::Parse(e)) && e.spec_kind() == ParseErrorKind::Incomplete
            && e.spec_reason() == "HTTP request header incomplete"@,
        Some(Some(h)) => r matches Ok(req) && req.method@ == h.0 && req.uri@ == h.1
            && req.version@ == version_text(h.2) && fields_from_raw(req.fields@, h.3),
    }
}

impl RequestHeader {
    pub fn new() -> (r: RequestHeader)
        ensures
            r.method@.len() == 0,
            r.uri@.len() == 0,
            r.version@.len() == 0,
            r.fields@.len() == 0,
    {
        RequestHeader {
            method: String::new(),
            uri: String::new(),
            version: String::new(),
            fields: HeaderFields::new(),
        }
    }

    /// Parses a complete request head.
    pub fn parse(data: &[u8]) -> (r: Result<RequestHeader, Error>)
        ensures
            request_result(request_head_of(data@), r),
    {
        RequestHeader::from_raw(parse_request_head(data))
    }

    /// Builds the result of a request head parse from what the parser
    /// reported.
    pub fn from_raw(raw: RawRequest) -> (r: Result<RequestHeader, Error>)
        ensures
            request_result(raw_request_view(raw), r),
    {
        match raw {
            None => Err(Error::Parse(ParseError::new("HTTP request header parse error"))),
            Some(None) => Err(Error::Parse(ParseError::incomplete("HTTP request header incomplete"))),
            Some(Some((method, uri, minor, raw_fields))) => Ok(RequestHeader {
                method,
                uri,
                version: version_string(minor),
                fields: fields_from(raw_fields),
            }),
        }
    }
}

/// A parsed response head.
#[derive(Debug)]
pub struct ResponseHeader {
    pub version: String,
    pub status_code: u16,
    pub reason_phrase: String,
    pub fields: HeaderFields,
}

/// Whether `r` is what parsing a response head that `raw` describes gives.
pub open spec fn response_result(
    raw: Option<Option<(u8, u16, Seq<char>, Seq<(Seq<char>, Seq<u8>)>)>>,
    r: Result<ResponseHeader, Error>,
) -> bool {
    match raw {
        None => r matches Err(Error::Parse(e)) && e.spec_kind() == ParseErrorKind::Malformed
            && e.spec_reason() == "HTTP response header parse error"@,
        Some(None) => r matches Err(Error::Parse(e)) && e.spec_kind() == ParseErrorKind::Incomplete
            && e.spec_reason() == "HTTP response header incomplete"@,
        Some(Some(h)) => r matches Ok(resp) && resp.version@ == version_text(h.0)
            && resp.status_code == h.1 && resp.reason_phrase@ == h.2 && fields_from_raw(
            resp.fields@,
            h.3,
        ),
    }
}

impl ResponseHeader {
    pub fn new() -> (r: ResponseHeader)
        ensures
            r.version@.len() == 0,
            r.status_code == 0,
            r.reason_phrase@.len() == 0,
            r.fields@.len() == 0,
    {
        ResponseHeader {
            version: String::new(),
            status_code: 0,
            reason_phrase: String::new(),
            fields: HeaderFields::new(),
        }
    }

    /// Parses a complete response head.
    pub fn parse(data: &[u8]) -> (r: Result<ResponseHeader, Error>)
        ensures
            response_result(response_head_of(data@), r),
    {
        ResponseHeader::from_raw(parse_response_head(data))
    }

    /// Builds the result of a response head parse from what the parser
    /// reported.
    pub fn from_raw(raw: RawResponse) -> (r: Result<ResponseHeader, Error>)
        ensures
            response_result(raw_response_view(raw), r),
    {
        match raw {
            None => Err(Error::Parse(ParseError::new("HTTP response header parse error"))),
            Some(None) => Err(Error::Parse(ParseError::incomplete("HTTP response header incomplete"))),
            Some(Some((minor, status_code, reason_phrase, raw_fields))) => Ok(ResponseHeader {
                version: version_string(minor),
                status_code,
                reason_phrase,
                fields: fields_from(raw_fields),
            }),
        }
    }
}

/// The fields that follow a response body.
#[derive(Debug)]
pub struct ResponseTrailer {
    pub fields: HeaderFields,
}

/// Whether `r` is what parsing a field block that `raw` describes gives.
pub open spec fn trailer_result(
    raw: Option<Option<Seq<(Seq<char>, Seq<u8>)>>>,
    r: Result<ResponseTrailer, Error>,
) -> bool {
    match raw {
        None => r matches Err(Error::Parse(e)) && e.spec_kind() == ParseErrorKind::Malformed
            && e.spec_reason() == "HTTP header fields parse error"@,
        Some(None) => r matches Err(Error::Parse(e)) && e.spec_kind() == ParseErrorKind::Incomplete
            && e.spec_reason() == "HTTP header fields incomplete"@,
        Some(Some(f)) => r matches Ok(t) && fields_from_raw(t.fields@, f),
    }
}

impl ResponseTrailer {
    pub fn new() -> (r: ResponseTrailer)
        ensures
            r.fields@.len() == 0,
    {
        ResponseTrailer { fields: HeaderFields::new() }
    }

    /// Parses a complete field block.
    pub fn parse(data: &[u8]) -> (r: Result<ResponseTrailer, Error>)
        ensures
            trailer_result(field_block_of(data@), r),
    {
        ResponseTrailer::from_raw(parse_field_block(data))
    }

    /// Builds the result of a field block parse from what the parser
    /// reported.
    pub fn from_raw(raw: RawTrailer) -> (r: Result<ResponseTrailer, Error>)
        ensures
            trailer_result(raw_trailer_view(raw), r),
    {
        match raw {
            None => Err(Error::Parse(ParseError::new("HTTP header fields parse error"))),
            Some(None) => Err(Error::Parse(ParseError::incomplete("HTTP header fields incomplete"))),
            Some(Some(raw_fields)) => Ok(ResponseTrailer { fields: fields_from(raw_fields) }),
        }
    }
}

} // verus!
