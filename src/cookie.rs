//! The shared cookie jar, and the rendering of a request's cookie header
//! within a byte budget.
use vstd::prelude::*;
use vstd::rwlock::{RwLock, RwLockPredicate};
use vstd::utf8::*;
use vstd::string::*;
use std::sync::Arc;
use cookie_store::CookieStore;
use url::Url;
use crate::escape::{chars_of, lemma_encode_concat, lemma_encode_single};
use crate::fields::HeaderFields;
use crate::text::{push_char, push_str};

verus! {

broadcast use vstd::seq_lib::group_seq_properties;

/// The byte budget of a rendered cookie header.
pub const MAX_HEADER_VALUE_LEN: usize = 4096;

#[verifier::external_type_specification]
#[verifier::external_body]
pub struct ExCookieStore(cookie_store::CookieStore);

#[verifier::external_type_specification]
#[verifier::external_body]
pub struct ExUrl(url::Url);

/// Relies on `CookieStore::default`: a store with no cookies.
#[verifier::external_body]
fn empty_store() -> CookieStore {
    CookieStore::default()
}

/// Relies on `CookieStore::get_request_values`: the names and values of the
/// stored cookies that apply to `url`, in the store's order.
#[verifier::external_body]
fn request_values(store: &CookieStore, url: &Url) -> Vec<(String, String)> {
    store.get_request_values(url).map(|(n, v)| (n.to_string(), v.to_string())).collect()
}

/// Relies on `CookieStore::parse`: stores the cookie that `text` sets for
/// `url` when it parses; says whether it did.
#[verifier::external_body]
fn store_cookie(store: &mut CookieStore, text: &str, url: &Url) -> bool {
    store.parse(text, url).is_ok()
}

/// Relies on `CookieStore::clear`: removes every cookie.
pub assume_specification[ cookie_store::CookieStore::clear ](store: &mut cookie_store::CookieStore);

/// The number of bytes that text takes in UTF-8.
pub open spec fn byte_len(s: Seq<char>) -> int {
    encode_utf8(s).len() as int
}

/// The text of one cookie in a header: a separator unless it comes first,
/// then `name=value`, the value quoted when it holds a space.
pub open spec fn cookie_piece(first: bool, name: Seq<char>, value: Seq<char>) -> Seq<char> {
    (if first { seq![] } else { seq![';', ' '] }) + name + seq!['='] + (if value.contains(' ') {
        seq!['"'] + value + seq!['"']
    } else {
        value
    })
}

/// All of `cookies` joined into one header value, in order.
pub open spec fn joined(cookies: Seq<(Seq<char>, Seq<char>)>) -> Seq<char>
    decreases cookies.len(),
{
    if cookies.len() == 0 {
        seq![]
    } else {
        joined(cookies.drop_last()) + cookie_piece(
            cookies.len() == 1,
            cookies.last().0,
            cookies.last().1,
        )
    }
}

/// How many of `cookies`, counting on from the first `k`, go into a header
/// of at most `max` bytes: each is taken while the header still fits, and
/// the first that does not fit ends it.
pub open spec fn fitting_from(cookies: Seq<(Seq<char>, Seq<char>)>, k: int, max: int) -> int
    decreases cookies.len() - k,
{
    if 0 <= k < cookies.len() && byte_len(joined(cookies.take(k + 1))) <= max {
        fitting_from(cookies, k + 1, max)
    } else {
        k
    }
}

/// The header value for `cookies` within `max` bytes.
pub open spec fn rendered(cookies: Seq<(Seq<char>, Seq<char>)>, max: int) -> Seq<char> {
    joined(cookies.take(fitting_from(cookies, 0, max)))
}

/// The plain value of name and value pairs.
pub open spec fn pairs_view(v: Seq<(String, String)>) -> Seq<(Seq<char>, Seq<char>)> {
    v.map_values(|p: (String, String)| (p.0@, p.1@))
}

/// The byte length of an ASCII char.
proof fn lemma_ascii_len(c: char)
    requires
        c as u32 <= 0x7F,
    ensures
        encode_utf8(seq![c]).len() == 1,
{
    lemma_encode_single(c);
}

/// The byte length of a header after one more cookie.
proof fn lemma_piece_len(buf: Seq<char>, first: bool, name: Seq<char>, value: Seq<char>)
    ensures
        byte_len(buf + cookie_piece(first, name, value)) == byte_len(buf) + (if first {
            0int
        } else {
            2int
        }) + encode_utf8(name).len() + 1 + encode_utf8(value).len() + (if value.contains(' ') {
            2int
        } else {
            0int
        }),
{
    lemma_ascii_len(';');
    lemma_ascii_len(' ');
    lemma_ascii_len('=');
    lemma_ascii_len('"');
    assert(seq![';', ' '] =~= seq![';'] + seq![' ']);
    lemma_encode_concat(seq![';'], seq![' ']);
    assert(encode_utf8(Seq::<char>::empty()).len() == 0);
    let sep: Seq<char> = if first { seq![] } else { seq![';', ' '] };
    let val: Seq<char> = if value.contains(' ') {
        seq!['"'] + value + seq!['"']
    } else {
        value
    };
    lemma_encode_concat(seq!['"'], value);
    lemma_encode_concat(seq!['"'] + value, seq!['"']);
    lemma_encode_concat(sep, name);
    lemma_encode_concat(sep + name, seq!['=']);
    lemma_encode_concat(sep + name + seq!['='], val);
    lemma_encode_concat(buf, cookie_piece(first, name, value));
}

/// Appends one cookie's text to a header.
fn push_cookie(buf: &mut String, first: bool, name: &str, value: &str, quoted: bool)
    requires
        quoted == value@.contains(' '),
    ensures
        final(buf)@ == old(buf)@ + cookie_piece(first, name@, value@),
{
    if !first {
        push_str(buf, "; ");
        proof {
            reveal_strlit("; ");
        }
    }
    push_str(buf, name);
    push_char(buf, '=');
    if quoted {
        push_char(buf, '"');
        push_str(buf, value);
        push_char(buf, '"');
    } else {
        push_str(buf, value);
    }
    assert(buf@ =~= old(buf)@ + cookie_piece(first, name@, value@));
}

/// Whether `s` holds a space.
fn has_space(s: &str) -> (r: bool)
    ensures
        r == s@.contains(' '),
{
    let cs = chars_of(s);
    let mut i: usize = 0;
    while i < cs.len()
        invariant
            cs@ == s@,
            i <= cs@.len(),
            forall|j: int| 0 <= j < i ==> cs@[j] != ' ',
        decreases cs@.len() - i,
    {
        if cs[i] == ' ' {
            return true;
        }
        i += 1;
    }
    false
}

/// Renders cookies as a request header value of at most `max_len` bytes:
/// `name=value` pairs joined by "; ", values with a space in quotes. The
/// cookies are taken in order while the header still fits; the first one
/// that does not fit ends the header.
pub fn format_client_header(cookies: &Vec<(String, String)>, max_len: usize) -> (r: String)
    ensures
        r@ == rendered(pairs_view(cookies@), max_len as int),
        byte_len(r@) <= max_len,
{
    let ghost c = pairs_view(cookies@);
    let mut buf = String::new();
    let mut used: usize = 0;
    let mut i: usize = 0;
    proof {
        assert(c.take(0) =~= Seq::<(Seq<char>, Seq<char>)>::empty());
    }
    let mut full = false;
    while !full && i < cookies.len()
        invariant
            c == pairs_view(cookies@),
            full ==> i < c.len() && fitting_from(c, i as int, max_len as int) == i,
            i <= c.len(),
            buf@ == joined(c.take(i as int)),
            used == byte_len(buf@),
            used <= max_len,
            fitting_from(c, i as int, max_len as int) == fitting_from(c, 0, max_len as int),
        decreases c.len() - i + (if full { 0int } else { 1int }),
    {
        let name = cookies[i].0.as_str();
        let value = cookies[i].1.as_str();
        let quoted = has_space(value);
        let name_len = name.as_bytes().len();
        let value_len = value.as_bytes().len();
        let piece_len: u128 = (if i == 0 { 0 } else { 2 }) + name_len as u128 + 1
            + value_len as u128 + (if quoted { 2 } else { 0 });
        proof {
            assert(c.take(i + 1).drop_last() =~= c.take(i as int));
            assert(c.take(i + 1).last() == (name@, value@));
            lemma_piece_len(buf@, i == 0, name@, value@);
        }
        if (used as u128) + piece_len > max_len as u128 {
            full = true;
        } else {
            push_cookie(&mut buf, i == 0, name, value, quoted);
            used = used + piece_len as usize;
            i += 1;
        }
    }
    proof {
        if !full {
            assert(fitting_from(c, i as int, max_len as int) == i);
        }
    }
    buf
}

/// A rendered cookie header never exceeds its budget, and holds the
/// cookies of a prefix: once one is left out for not fitting, every later
/// one is left out too.
pub proof fn lemma_rendered_within_budget(cookies: Seq<(Seq<char>, Seq<char>)>, max: int)
    requires
        max >= 0,
    ensures
        byte_len(rendered(cookies, max)) <= max,
        0 <= fitting_from(cookies, 0, max) <= cookies.len(),
        rendered(cookies, max) == joined(cookies.take(fitting_from(cookies, 0, max))),
        fitting_from(cookies, 0, max) < cookies.len() ==> byte_len(
            joined(cookies.take(fitting_from(cookies, 0, max) + 1)),
        ) > max,
{
    assert(cookies.take(0) =~= Seq::<(Seq<char>, Seq<char>)>::empty());
    lemma_fitting_from(cookies, 0, max);
}

proof fn lemma_fitting_from(cookies: Seq<(Seq<char>, Seq<char>)>, k: int, max: int)
    requires
        0 <= k <= cookies.len(),
        byte_len(joined(cookies.take(k))) <= max,
    ensures
        k <= fitting_from(cookies, k, max) <= cookies.len(),
        byte_len(joined(cookies.take(fitting_from(cookies, k, max)))) <= max,
        fitting_from(cookies, k, max) < cookies.len() ==> byte_len(
            joined(cookies.take(fitting_from(cookies, k, max) + 1)),
        ) > max,
    decreases cookies.len() - k,
{
    if k < cookies.len() && byte_len(joined(cookies.take(k + 1))) <= max {
        lemma_fitting_from(cookies, k + 1, max);
    }
}

/// A lock predicate that admits every store.
pub struct AnyStore;

impl RwLockPredicate<CookieStore> for AnyStore {
    open spec fn inv(self, v: CookieStore) -> bool {
        true
    }
}

/// A cookie jar shared between sessions, or a disabled one in which every
/// operation does nothing.
pub struct CookieJar {
    store: Option<Arc<RwLock<CookieStore, AnyStore>>>,
}

impl Clone for CookieJar {
    fn clone(&self) -> (r: Self) {
        match &self.store {
            Some(store) => CookieJar { store: Some(Arc::clone(store)) },
            None => CookieJar { store: None },
        }
    }
}

impl CookieJar {
    pub closed spec fn is_enabled(&self) -> bool {
        self.store is Some
    }

    /// An empty, enabled jar.
    pub fn new() -> (r: CookieJar)
        ensures
            r.is_enabled(),
    {
        CookieJar { store: Some(Arc::new(RwLock::new(empty_store(), Ghost(AnyStore)))) }
    }

    /// A disabled jar.
    pub fn new_disabled() -> (r: CookieJar)
        ensures
            !r.is_enabled(),
    {
        CookieJar { store: None }
    }

    /// The cookie header value for a request to `url`: the cookies that
    /// apply to it rendered within `MAX_HEADER_VALUE_LEN` bytes, or empty
    /// for a disabled jar.
    pub fn get_request_string(&self, url: &Url) -> (r: String)
        ensures
            !self.is_enabled() ==> r@.len() == 0,
            self.is_enabled() ==> exists|cookies: Seq<(Seq<char>, Seq<char>)>|
                r@ == rendered(cookies, MAX_HEADER_VALUE_LEN as int),
            byte_len(r@) <= MAX_HEADER_VALUE_LEN,
    {
        match &self.store {
            Some(store) => {
                let reader = store.acquire_read();
                let cookies = request_values(reader.borrow(), url);
                reader.release_read();
                format_client_header(&cookies, MAX_HEADER_VALUE_LEN)
            },
            None => {
                assert(encode_utf8(Seq::<char>::empty()).len() == 0);
                String::new()
            },
        }
    }

    /// Stores, for `url`, every cookie that a `Set-Cookie` field of `fields`
    /// sets; a value that does not parse is skipped.
    pub fn parse_from_response(&self, url: &Url, fields: &HeaderFields) {
        if let Some(store) = &self.store {
            let values = fields.get_all("Set-Cookie");
            let (mut cookies, guard) = store.acquire_write();
            let mut i: usize = 0;
            while i < values.len()
                invariant
                    i <= values@.len(),
                decreases values@.len() - i,
            {
                let text = values[i].to_string_lossy();
                let _ = store_cookie(&mut cookies, text.as_str(), url);
                i += 1;
            }
            guard.release_write(cookies);
        }
    }

    /// Removes every cookie.
    pub fn clear(&self) {
        if let Some(store) = &self.store {
            let (mut cookies, guard) = store.acquire_write();
            cookies.clear();
            guard.release_write(cookies);
        }
    }
}

} // verus!
