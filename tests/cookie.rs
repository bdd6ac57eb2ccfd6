use wrecv::cookie::{format_client_header, CookieJar};

fn pairs(items: &[(&str, &str)]) -> Vec<(String, String)> {
    items.iter().map(|(n, v)| (n.to_string(), v.to_string())).collect()
}

#[test]
fn test_format_client_header() {
    let result = format_client_header(&pairs(&[("k1", "v1")]), 4096);
    assert_eq!(&result, "k1=v1");

    let result = format_client_header(&pairs(&[("k1", "v1"), ("k2", "v2"), ("k3", "v 3")]), 4096);
    assert_eq!(&result, "k1=v1; k2=v2; k3=\"v 3\"");
}

#[test]
fn cookie_header_stops_at_first_overflow() {
    let cookies = pairs(&[("a", "1"), ("bbbb", "2222"), ("c", "3")]);
    assert_eq!(format_client_header(&cookies, 3), "a=1");
    assert_eq!(format_client_header(&cookies, 8), "a=1");
    assert_eq!(format_client_header(&cookies, 14), "a=1; bbbb=2222");
    assert_eq!(format_client_header(&cookies, 2), "");
    assert_eq!(format_client_header(&pairs(&[]), 10), "");
}

#[test]
fn cookie_header_counts_quotes() {
    let cookies = pairs(&[("k", "a b")]);
    assert_eq!(format_client_header(&cookies, 7), "k=\"a b\"");
    assert_eq!(format_client_header(&cookies, 6), "");
}

#[test]
fn cookie_jar_round_trip() {
    let jar = CookieJar::new();
    let url = url::Url::parse("http://example.com/").unwrap();
    let mut fields = wrecv::fields::HeaderFields::new();
    fields.append("Set-Cookie", wrecv::fields::FieldValue::from_text("key1=value1"));
    fields.append("set-cookie", wrecv::fields::FieldValue::from_text("=broken; ;"));
    jar.parse_from_response(&url, &fields);
    assert_eq!(jar.get_request_string(&url), "key1=value1");
    jar.clear();
    assert_eq!(jar.get_request_string(&url), "");
}

#[test]
fn disabled_cookie_jar_does_nothing() {
    let jar = CookieJar::new_disabled();
    let url = url::Url::parse("http://example.com/").unwrap();
    let mut fields = wrecv::fields::HeaderFields::new();
    fields.append("Set-Cookie", wrecv::fields::FieldValue::from_text("key1=value1"));
    jar.parse_from_response(&url, &fields);
    assert_eq!(jar.get_request_string(&url), "");
}
