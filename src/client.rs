//! What a client decides before it hands a request to the transport: the
//! session mode for a URL scheme, the header lines to send, and the default
//! user agent.
use vstd::prelude::*;
use crate::fields::{values_for, FieldName, FieldValue, HeaderFields};
use crate::session::SessionMode;
use crate::text::{decimal_text, push_char, push_decimal, push_str, str_equal};

verus! {

broadcast use vstd::seq_lib::group_seq_properties;

/// The session mode for a URL scheme: HTTP for "http" and "https", FTP for
/// "ftp", none for any other scheme, which is not supported.
pub open spec fn scheme_mode(scheme: Seq<char>) -> Option<SessionMode> {
    if scheme == "http"@ || scheme == "https"@ {
        Some(SessionMode::Http)
    } else if scheme == "ftp"@ {
        Some(SessionMode::Ftp)
    } else {
        None
    }
}

pub fn mode_for_scheme(scheme: &str) -> (r: Option<SessionMode>)
    ensures
        r == scheme_mode(scheme@),
{
    if str_equal(scheme, "http") || str_equal(scheme, "https") {
        Some(SessionMode::Http)
    } else if str_equal(scheme, "ftp") {
        Some(SessionMode::Ftp)
    } else {
        None
    }
}

/// The header line for a field: its name, a colon, and its value as text.
pub open spec fn field_line(name: FieldName, value: FieldValue) -> Seq<char> {
    name@ + seq![':'] + value.lossless_text()
}

pub fn format_header_field(name: &FieldName, value: &FieldValue) -> (r: String)
    ensures
        r@ == field_line(*name, *value),
{
    let mut line = String::new();
    push_str(&mut line, name.as_str());
    push_char(&mut line, ':');
    let text = value.to_string_lossy();
    push_str(&mut line, text.as_str());
    assert(line@ =~= field_line(*name, *value));
    line
}

/// The lines of the default fields whose name the request does not set.
pub open spec fn default_lines(
    defaults: Seq<(FieldName, FieldValue)>,
    request: Seq<(FieldName, FieldValue)>,
) -> Seq<Seq<char>>
    decreases defaults.len(),
{
    if defaults.len() == 0 {
        seq![]
    } else if values_for(request, defaults[0].0@).len() > 0 {
        default_lines(defaults.drop_first(), request)
    } else {
        seq![field_line(defaults[0].0, defaults[0].1)] + default_lines(defaults.drop_first(), request)
    }
}

/// The lines of the given fields, in order.
pub open spec fn field_lines(fields: Seq<(FieldName, FieldValue)>) -> Seq<Seq<char>> {
    fields.map_values(|f: (FieldName, FieldValue)| field_line(f.0, f.1))
}

/// The text of each string.
pub open spec fn texts(v: Seq<String>) -> Seq<Seq<char>> {
    v.map_values(|s: String| s@)
}

/// The header lines of a request: the configured defaults that the request
/// does not set itself, then the request's own fields.
pub fn header_lines(defaults: &HeaderFields, request: &HeaderFields) -> (r: Vec<String>)
    ensures
        texts(r@) == default_lines(defaults@, request@) + field_lines(request@),
{
    let mut lines: Vec<String> = Vec::new();
    let d = defaults.as_slice();
    let ghost ds = defaults@;
    let mut i: usize = 0;
    assert(ds.subrange(0, ds.len() as int) =~= ds);
    while i < d.len()
        invariant
            d@ == ds,
            ds == defaults@,
            i <= ds.len(),
            texts(lines@) + default_lines(ds.subrange(i as int, ds.len() as int), request@)
                == default_lines(ds, request@),
        decreases ds.len() - i,
    {
        let ghost rest = ds.subrange(i as int, ds.len() as int);
        let ghost before = texts(lines@);
        assert(rest.drop_first() =~= ds.subrange(i + 1, ds.len() as int));
        let (name, value) = &d[i];
        if !request.contains_key(name.as_str()) {
            let line = format_header_field(name, value);
            lines.push(line);
            assert(texts(lines@) =~= before.push(field_line(*name, *value)));
            assert(before.push(field_line(*name, *value)) + default_lines(rest.drop_first(), request@)
                =~= before + default_lines(rest, request@));
        }
        i += 1;
    }
    assert(ds.subrange(i as int, ds.len() as int) =~= Seq::<(FieldName, FieldValue)>::empty());
    assert(texts(lines@) + Seq::<Seq<char>>::empty() =~= texts(lines@));
    let r = request.as_slice();
    let ghost rs = request@;
    let ghost base = texts(lines@);
    let mut j: usize = 0;
    while j < r.len()
        invariant
            r@ == rs,
            rs == request@,
            j <= rs.len(),
            base == default_lines(ds, request@),
            texts(lines@) == base + field_lines(rs.take(j as int)),
        decreases rs.len() - j,
    {
        let (name, value) = &r[j];
        let line = format_header_field(name, value);
        let ghost before = texts(lines@);
        lines.push(line);
        assert(rs.take(j + 1) =~= rs.take(j as int).push(rs[j as int]));
        assert(field_lines(rs.take(j + 1)) =~= field_lines(rs.take(j as int)).push(
            field_line(*name, *value),
        ));
        assert(texts(lines@) =~= before.push(field_line(*name, *value)));
        j += 1;
    }
    assert(rs.take(rs.len() as int) =~= rs);
    lines
}

/// The user agent a client sends by default, made from the library's and
/// the transport's versions.
pub open spec fn user_agent_text(major: u64, minor: u64, transport_version: u32) -> Seq<char> {
    "Mozilla/5.0 (compatible; not Gecko KHTML AppleWebKit Firefox Chrome Safari) wrecv/"@
        + decimal_text(major as nat) + "."@ + decimal_text(minor as nat) + " curl/"@
        + decimal_text(((transport_version >> 16) as u8) as nat) + "."@ + decimal_text(
        ((transport_version >> 8) as u8) as nat,
    )
}

/// The default user agent, for the library version `major.minor` and a
/// transport whose packed version number is `transport_version`.
pub fn default_user_agent(major: u64, minor: u64, transport_version: u32) -> (r: String)
    ensures
        r@ == user_agent_text(major, minor, transport_version),
{
    let mut agent = String::new();
    push_str(
        &mut agent,
        "Mozilla/5.0 (compatible; not Gecko KHTML AppleWebKit Firefox Chrome Safari) wrecv/",
    );
    push_decimal(&mut agent, major);
    push_str(&mut agent, ".");
    push_decimal(&mut agent, minor);
    push_str(&mut agent, " curl/");
    push_decimal(&mut agent, ((transport_version >> 16) as u8) as u64);
    push_str(&mut agent, ".");
    push_decimal(&mut agent, ((transport_version >> 8) as u8) as u64);
    assert(agent@ =~= user_agent_text(major, minor, transport_version));
    agent
}

/// The header fields a client sends unless told otherwise: none.
pub fn default_http_headers() -> (r: Vec<(String, String)>)
    ensures
        r@.len() == 0,
{
    Vec::new()
}

} // verus!
