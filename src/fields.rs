//! The header field model: an ordered multimap from field names, compared
//! without regard to ASCII case, to values that are text or opaque bytes.
use vstd::prelude::*;
use vstd::utf8::*;
use crate::escape::{escaped_text, parse_utf8_escaped};
use crate::text::{ascii_lower, bytes_equal, string_from_utf8, to_ascii_lowercase};
use vstd::slice::slice_to_vec;

verus! {

broadcast use vstd::seq_lib::group_seq_properties;

/// A header field name: the name as given, and its lowercased form, which
/// alone decides equality.
#[derive(Debug)]
pub struct FieldName {
    inner: String,
    normalized: String,
}

impl View for FieldName {
    type V = Seq<char>;

    closed spec fn view(&self) -> Seq<char> {
        self.inner@
    }
}

impl FieldName {
    #[verifier::type_invariant]
    spec fn normalized_matches(&self) -> bool {
        self.normalized@ == ascii_lower(self.inner@)
    }

    /// The form of the name that equality goes by.
    pub open spec fn key(&self) -> Seq<char> {
        ascii_lower(self@)
    }

    pub fn new(name: &str) -> (r: FieldName)
        ensures
            r@ == name@,
    {
        let normalized = to_ascii_lowercase(name);
        FieldName { inner: name.to_owned(), normalized }
    }

    pub fn into_inner(self) -> (r: String)
        ensures
            r@ == self@,
    {
        self.inner
    }

    pub fn as_str(&self) -> (r: &str)
        ensures
            r@ == self@,
    {
        self.inner.as_str()
    }

    pub fn normalized(&self) -> (r: &str)
        ensures
            r@ == self.key(),
    {
        proof {
            use_type_invariant(self);
        }
        self.normalized.as_str()
    }
}

impl PartialEq for FieldName {
    fn eq(&self, other: &FieldName) -> (r: bool) {
        proof {
            use_type_invariant(self);
            use_type_invariant(other);
        }
        self.normalized == other.normalized
    }
}

impl vstd::std_specs::cmp::PartialEqSpecImpl for FieldName {
    open spec fn obeys_eq_spec() -> bool {
        true
    }

    open spec fn eq_spec(&self, other: &FieldName) -> bool {
        self.key() == other.key()
    }
}

impl Eq for FieldName {}

impl Clone for FieldName {
    fn clone(&self) -> (r: FieldName)
        ensures
            r@ == self@,
    {
        proof {
            use_type_invariant(self);
        }
        FieldName { inner: self.inner.clone(), normalized: self.normalized.clone() }
    }
}


/// A header field value: text when the bytes were valid UTF-8, opaque bytes
/// otherwise.
#[derive(Debug)]
pub enum FieldValue {
    Text(String),
    Opaque(Vec<u8>),
}

impl FieldValue {
    /// The bytes that the value holds.
    pub open spec fn bytes(&self) -> Seq<u8> {
        match self {
            FieldValue::Text(t) => encode_utf8(t@),
            FieldValue::Opaque(d) => d@,
        }
    }

    /// The text that the value is shown as.
    pub open spec fn lossless_text(&self) -> Seq<char> {
        match self {
            FieldValue::Text(t) => t@,
            FieldValue::Opaque(d) => escaped_text(d@),
        }
    }

    /// The value for `bytes`: text when they are valid UTF-8, else opaque.
    pub open spec fn of_bytes(bytes: Seq<u8>, v: FieldValue) -> bool {
        if valid_utf8(bytes) {
            v matches FieldValue::Text(t) && t@ == decode_utf8(bytes)
        } else {
            v matches FieldValue::Opaque(d) && d@ == bytes
        }
    }

    /// Whether `self` and `other` are the same variant with the same content.
    pub open spec fn same_value(&self, other: FieldValue) -> bool {
        match (*self, other) {
            (FieldValue::Text(a), FieldValue::Text(b)) => a@ == b@,
            (FieldValue::Opaque(a), FieldValue::Opaque(b)) => a@ == b@,
            _ => false,
        }
    }

    /// A text value.
    pub fn from_text(text: &str) -> (r: FieldValue)
        ensures
            r matches FieldValue::Text(t) && t@ == text@,
    {
        FieldValue::Text(text.to_owned())
    }

    /// The value for `bytes`, preferring text and falling back to opaque
    /// bytes when they are not valid UTF-8.
    pub fn from_bytes(bytes: &[u8]) -> (r: FieldValue)
        ensures
            FieldValue::of_bytes(bytes@, r),
            r.bytes() == bytes@,
    {
        Self::from_vec(slice_to_vec(bytes))
    }

    /// The value for `bytes`, preferring text and falling back to opaque
    /// bytes when they are not valid UTF-8.
    pub fn from_vec(bytes: Vec<u8>) -> (r: FieldValue)
        ensures
            FieldValue::of_bytes(bytes@, r),
            r.bytes() == bytes@,
    {
        let ghost b = bytes@;
        match string_from_utf8(bytes) {
            Ok(text) => {
                proof {
                    decode_utf8_encode_utf8(b);
                }
                FieldValue::Text(text)
            },
            Err(data) => FieldValue::Opaque(data),
        }
    }

    pub fn is_text(&self) -> (r: bool)
        ensures
            r == self is Text,
    {
        matches!(self, FieldValue::Text(_))
    }

    pub fn is_opaque(&self) -> (r: bool)
        ensures
            r == self is Opaque,
    {
        matches!(self, FieldValue::Opaque(_))
    }

    pub fn as_bytes(&self) -> (r: &[u8])
        ensures
            r@ == self.bytes(),
    {
        match self {
            FieldValue::Text(text) => text.as_str().as_bytes(),
            FieldValue::Opaque(data) => data.as_slice(),
        }
    }

    /// The value as text; opaque bytes are rendered with the byte-safe
    /// escaping, so nothing is lost.
    pub fn to_string_lossy(&self) -> (r: String)
        ensures
            r@ == self.lossless_text(),
    {
        match self {
            FieldValue::Text(text) => text.clone(),
            FieldValue::Opaque(data) => parse_utf8_escaped(data.as_slice()),
        }
    }
}

impl PartialEq for FieldValue {
    fn eq(&self, other: &FieldValue) -> (r: bool) {
        match (self, other) {
            (FieldValue::Text(a), FieldValue::Text(b)) => {
                let r = bytes_equal(a.as_str().as_bytes(), b.as_str().as_bytes());
                proof {
                    encode_utf8_decode_utf8(a@);
                    encode_utf8_decode_utf8(b@);
                }
                r
            },
            (FieldValue::Opaque(a), FieldValue::Opaque(b)) => bytes_equal(a.as_slice(), b.as_slice()),
            _ => false,
        }
    }
}

impl vstd::std_specs::cmp::PartialEqSpecImpl for FieldValue {
    open spec fn obeys_eq_spec() -> bool {
        true
    }

    open spec fn eq_spec(&self, other: &FieldValue) -> bool {
        self.same_value(*other)
    }
}

impl Eq for FieldValue {}

impl Clone for FieldValue {
    fn clone(&self) -> (r: FieldValue)
        ensures
            r.same_value(*self),
    {
        match self {
            FieldValue::Text(text) => FieldValue::Text(text.clone()),
            FieldValue::Opaque(data) => {
                let copy = slice_to_vec(data.as_slice());
                assert(copy@ == data@);
                FieldValue::Opaque(copy)
            },
        }
    }
}


/// Whether the field name `name` is looked up by `key`.
pub open spec fn name_matches(name: FieldName, key: Seq<char>) -> bool {
    name.key() == ascii_lower(key)
}

/// The values of the fields in `s` whose name matches `key`, in order.
pub open spec fn values_for(s: Seq<(FieldName, FieldValue)>, key: Seq<char>) -> Seq<FieldValue>
    decreases s.len(),
{
    if s.len() == 0 {
        seq![]
    } else if name_matches(s[0].0, key) {
        seq![s[0].1] + values_for(s.drop_first(), key)
    } else {
        values_for(s.drop_first(), key)
    }
}

/// `s` without the fields whose name matches `key`, in order.
pub open spec fn without_key(s: Seq<(FieldName, FieldValue)>, key: Seq<char>) -> Seq<
    (FieldName, FieldValue),
>
    decreases s.len(),
{
    if s.len() == 0 {
        seq![]
    } else if name_matches(s[0].0, key) {
        without_key(s.drop_first(), key)
    } else {
        seq![s[0]] + without_key(s.drop_first(), key)
    }
}

/// The position of the first field in `s` whose name matches `key`, or the
/// length of `s` when there is none.
pub open spec fn first_match(s: Seq<(FieldName, FieldValue)>, key: Seq<char>) -> int
    decreases s.len(),
{
    if s.len() == 0 {
        0
    } else if name_matches(s[0].0, key) {
        0
    } else {
        1 + first_match(s.drop_first(), key)
    }
}

/// An ordered list of header fields; a name may occur more than once.
#[derive(Debug)]
pub struct HeaderFields {
    inner: Vec<(FieldName, FieldValue)>,
}

impl View for HeaderFields {
    type V = Seq<(FieldName, FieldValue)>;

    closed spec fn view(&self) -> Seq<(FieldName, FieldValue)> {
        self.inner@
    }
}

impl HeaderFields {
    pub fn new() -> (r: HeaderFields)
        ensures
            r@ == Seq::<(FieldName, FieldValue)>::empty(),
    {
        HeaderFields { inner: Vec::new() }
    }

    pub fn len(&self) -> (r: usize)
        ensures
            r == self@.len(),
    {
        self.inner.len()
    }

    pub fn is_empty(&self) -> (r: bool)
        ensures
            r == (self@.len() == 0),
    {
        self.inner.len() == 0
    }

    pub fn clear(&mut self)
        ensures
            final(self)@ == Seq::<(FieldName, FieldValue)>::empty(),
    {
        self.inner.clear();
    }

    pub fn as_slice(&self) -> (r: &[(FieldName, FieldValue)])
        ensures
            r@ == self@,
    {
        self.inner.as_slice()
    }

    /// The fields in order.
    pub fn iter(&self) -> (r: std::slice::Iter<'_, (FieldName, FieldValue)>)
        ensures
            vstd::std_specs::slice::into_iter_elts(r) == self@,
    {
        let fields = self.inner.as_slice();
        let it = fields.iter();
        proof {
            vstd::std_specs::slice::axiom_spec_slice_iter(fields);
            assert(fields@.as_ref().unref() =~= fields@);
        }
        it
    }

    /// Whether some field is named `key`, ignoring ASCII case.
    pub fn contains_key(&self, key: &str) -> (r: bool)
        ensures
            r == (values_for(self@, key@).len() > 0),
    {
        let found = self.position(key);
        proof {
            lemma_first_match(self@, key@);
        }
        found < self.inner.len()
    }

    /// The value of the first field named `key`, ignoring ASCII case.
    pub fn get(&self, key: &str) -> (r: Option<&FieldValue>)
        ensures
            r is Some <==> values_for(self@, key@).len() > 0,
            r matches Some(v) ==> *v == values_for(self@, key@)[0],
    {
        let p = self.position(key);
        proof {
            lemma_first_match(self@, key@);
        }
        if p < self.inner.len() {
            Some(&self.inner[p].1)
        } else {
            None
        }
    }

    /// The values of all fields named `key`, ignoring ASCII case, in order.
    pub fn get_all(&self, key: &str) -> (r: Vec<&FieldValue>)
        ensures
            r@.map_values(|v: &FieldValue| *v) == values_for(self@, key@),
    {
        let name = FieldName::new(key);
        let mut out: Vec<&FieldValue> = Vec::new();
        let mut i: usize = 0;
        let ghost s = self@;
        assert(s.subrange(0, s.len() as int) =~= s);
        assert(out@.map_values(|v: &FieldValue| *v) =~= Seq::<FieldValue>::empty());
        while i < self.inner.len()
            invariant
                s == self@,
                name@ == key@,
                i <= s.len(),
                out@.map_values(|v: &FieldValue| *v) + values_for(
                    s.subrange(i as int, s.len() as int),
                    key@,
                ) == values_for(s, key@),
            decreases s.len() - i,
        {
            let ghost rest = s.subrange(i as int, s.len() as int);
            let ghost before = out@.map_values(|v: &FieldValue| *v);
            assert(rest.drop_first() =~= s.subrange(i + 1, s.len() as int));
            let entry = &self.inner[i];
            if entry.0 == name {
                out.push(&entry.1);
                assert(out@.map_values(|v: &FieldValue| *v) =~= before.push(entry.1));
                assert(before.push(entry.1) + values_for(rest.drop_first(), key@) =~= before + (
                seq![entry.1] + values_for(rest.drop_first(), key@)));
            }
            i += 1;
        }
        assert(s.subrange(i as int, s.len() as int) =~= Seq::<(FieldName, FieldValue)>::empty());
        assert(out@.map_values(|v: &FieldValue| *v) + Seq::<FieldValue>::empty() =~= out@.map_values(
            |v: &FieldValue| *v,
        ));
        out
    }

    /// The position of the first field named `key`, or the length when there
    /// is none.
    fn position(&self, key: &str) -> (r: usize)
        ensures
            r == first_match(self@, key@),
    {
        let name = FieldName::new(key);
        let mut i: usize = 0;
        let ghost s = self@;
        assert(s.subrange(0, s.len() as int) =~= s);
        while i < self.inner.len()
            invariant
                s == self@,
                name@ == key@,
                i <= s.len(),
                i + first_match(s.subrange(i as int, s.len() as int), key@) == first_match(s, key@),
            decreases s.len() - i,
        {
            let ghost rest = s.subrange(i as int, s.len() as int);
            assert(rest.drop_first() =~= s.subrange(i + 1, s.len() as int));
            if self.inner[i].0 == name {
                return i;
            }
            i += 1;
        }
        i
    }

    /// Adds a field after all others.
    pub fn append(&mut self, name: &str, value: FieldValue)
        ensures
            final(self)@.len() == old(self)@.len() + 1,
            final(self)@.take(old(self)@.len() as int) == old(self)@,
            final(self)@.last().0@ == name@,
            final(self)@.last().1 == value,
    {
        self.inner.push((FieldName::new(name), value));
        assert(final(self)@.take(old(self)@.len() as int) =~= old(self)@);
    }

    /// Sets the field named `name` to `value`: every field of that name,
    /// ignoring ASCII case, is removed, and the new field takes the place of
    /// the first of them, or goes last when there was none.
    pub fn insert(&mut self, name: &str, value: FieldValue)
        ensures
            ({
                let p = first_match(old(self)@, name@);
                let w = without_key(old(self)@, name@);
                &&& final(self)@.len() == w.len() + 1
                &&& final(self)@.take(p) == w.take(p)
                &&& final(self)@[p].0@ == name@
                &&& final(self)@[p].1 == value
                &&& final(self)@.skip(p + 1) == w.skip(p)
            }),
            first_match(final(self)@, name@) == first_match(old(self)@, name@),
            values_for(final(self)@, name@) == seq![value],
    {
        let ghost s = self@;
        let p = self.position(name);
        proof {
            lemma_first_match(s, name@);
            lemma_without_prefix(s, name@);
            lemma_without_has_no_match(s, name@);
        }
        if p < self.inner.len() {
            self.remove(name);
        } else {
            proof {
                lemma_no_match_without(s, name@);
            }
        }
        let ghost w = self@;
        let entry = (FieldName::new(name), value);
        let ghost e = entry;
        self.inner.insert(p, entry);
        proof {
            let f = self@;
            assert(f.take(p as int) =~= w.take(p as int));
            assert(f.skip(p + 1) =~= w.skip(p as int));
            assert(f =~= w.take(p as int) + (seq![e] + w.skip(p as int)));
            assert(w =~= w.take(p as int) + w.skip(p as int));
            lemma_values_concat(w.take(p as int), w.skip(p as int), name@);
            lemma_values_concat(w.take(p as int), seq![e] + w.skip(p as int), name@);
            lemma_values_concat(seq![e], w.skip(p as int), name@);
            assert(seq![e].drop_first() =~= Seq::<(FieldName, FieldValue)>::empty());
            assert(values_for(seq![e], name@) =~= seq![value]);
            assert(values_for(w.take(p as int), name@).len() == 0);
            assert(values_for(w.skip(p as int), name@).len() == 0);
            lemma_values_concat_first_match(w.take(p as int), seq![e] + w.skip(p as int), name@);
            lemma_first_match(w.take(p as int), name@);
            assert(first_match(seq![e] + w.skip(p as int), name@) == 0);
        }
    }

    /// Removes every field named `key`, ignoring ASCII case.
    pub fn remove(&mut self, key: &str)
        ensures
            final(self)@ == without_key(old(self)@, key@),
    {
        let name = FieldName::new(key);
        let mut entries: Vec<(FieldName, FieldValue)> = Vec::new();
        std::mem::swap(&mut self.inner, &mut entries);
        let ghost s = entries@;
        let mut kept: Vec<(FieldName, FieldValue)> = Vec::new();
        assert(s.skip(0) =~= s);
        for entry in it: entries.into_iter()
            invariant
                it.seq() == s,
                name@ == key@,
                kept@ + without_key(s.skip(it.index() as int), key@) == without_key(s, key@),
        {
            let ghost rest = s.skip(it.index() as int);
            assert(rest.drop_first() =~= s.skip(it.index() + 1));
            assert(rest[0] == entry);
            if !(entry.0 == name) {
                let ghost before = kept@;
                kept.push(entry);
                assert(kept@ + without_key(rest.drop_first(), key@) =~= before + without_key(
                    rest,
                    key@,
                ));
            }
        }
        assert(s.skip(s.len() as int) =~= Seq::<(FieldName, FieldValue)>::empty());
        assert(kept@ + Seq::<(FieldName, FieldValue)>::empty() =~= kept@);
        self.inner = kept;
    }
}

/// Looking up a concatenation looks up each part.
pub proof fn lemma_values_concat(
    a: Seq<(FieldName, FieldValue)>,
    b: Seq<(FieldName, FieldValue)>,
    key: Seq<char>,
)
    ensures
        values_for(a + b, key) == values_for(a, key) + values_for(b, key),
    decreases a.len(),
{
    if a.len() == 0 {
        assert(a + b =~= b);
    } else {
        assert((a + b).drop_first() =~= a.drop_first() + b);
        lemma_values_concat(a.drop_first(), b, key);
        assert(seq![a[0].1] + (values_for(a.drop_first(), key) + values_for(b, key)) =~= seq![
            a[0].1,
        ] + values_for(a.drop_first(), key) + values_for(b, key));
    }
}

/// Lookup ignores ASCII case: two keys that lowercase alike find the same
/// values, in the same order.
pub proof fn lemma_lookup_ignores_case(
    s: Seq<(FieldName, FieldValue)>,
    key1: Seq<char>,
    key2: Seq<char>,
)
    requires
        ascii_lower(key1) == ascii_lower(key2),
    ensures
        values_for(s, key1) == values_for(s, key2),
    decreases s.len(),
{
    if s.len() > 0 {
        lemma_lookup_ignores_case(s.drop_first(), key1, key2);
    }
}

/// Appending a field never lowers the number of values found under any
/// key.
pub proof fn lemma_append_keeps_values(
    s: Seq<(FieldName, FieldValue)>,
    field: (FieldName, FieldValue),
    key: Seq<char>,
)
    ensures
        values_for(s.push(field), key).len() >= values_for(s, key).len(),
        values_for(s.push(field), key).take(values_for(s, key).len() as int) == values_for(s, key),
{
    assert(s.push(field) =~= s + seq![field]);
    lemma_values_concat(s, seq![field], key);
    let v = values_for(s, key);
    assert((v + values_for(seq![field], key)).take(v.len() as int) =~= v);
}

/// With no match in `a`, the first match in `a + b` is found in `b`.
proof fn lemma_values_concat_first_match(
    a: Seq<(FieldName, FieldValue)>,
    b: Seq<(FieldName, FieldValue)>,
    key: Seq<char>,
)
    requires
        values_for(a, key).len() == 0,
    ensures
        first_match(a + b, key) == a.len() + first_match(b, key),
    decreases a.len(),
{
    if a.len() > 0 {
        assert((a + b).drop_first() =~= a.drop_first() + b);
        lemma_values_concat_first_match(a.drop_first(), b, key);
    } else {
        assert(a + b =~= b);
    }
}

/// Nothing left after removing a name matches it.
proof fn lemma_without_has_no_match(s: Seq<(FieldName, FieldValue)>, key: Seq<char>)
    ensures
        values_for(without_key(s, key), key).len() == 0,
    decreases s.len(),
{
    if s.len() > 0 {
        lemma_without_has_no_match(s.drop_first(), key);
        let w = without_key(s.drop_first(), key);
        if !name_matches(s[0].0, key) {
            assert((seq![s[0]] + w).drop_first() =~= w);
        }
    }
}

/// Removing a name that does not occur changes nothing.
proof fn lemma_no_match_without(s: Seq<(FieldName, FieldValue)>, key: Seq<char>)
    requires
        values_for(s, key).len() == 0,
    ensures
        without_key(s, key) == s,
    decreases s.len(),
{
    if s.len() > 0 {
        lemma_no_match_without(s.drop_first(), key);
        assert(seq![s[0]] + s.drop_first() =~= s);
    }
}

/// The fields before the first match survive removal, in place.
proof fn lemma_without_prefix(s: Seq<(FieldName, FieldValue)>, key: Seq<char>)
    ensures
        first_match(s, key) <= without_key(s, key).len(),
        without_key(s, key).take(first_match(s, key)) == s.take(first_match(s, key)),
        values_for(s.take(first_match(s, key)), key).len() == 0,
    decreases s.len(),
{
    if s.len() == 0 {
        assert(s.take(0) =~= s);
        assert(without_key(s, key).take(0) =~= s);
    } else if name_matches(s[0].0, key) {
        assert(s.take(0) =~= Seq::<(FieldName, FieldValue)>::empty());
        assert(without_key(s, key).take(0) =~= Seq::<(FieldName, FieldValue)>::empty());
    } else {
        let t = s.drop_first();
        lemma_without_prefix(t, key);
        lemma_first_match(t, key);
        let p = first_match(t, key);
        let w = without_key(t, key);
        assert((seq![s[0]] + w).take(p + 1) =~= seq![s[0]] + w.take(p));
        assert(s.take(p + 1) =~= seq![s[0]] + t.take(p));
        assert(s.take(p + 1).drop_first() =~= t.take(p));
    }
}

impl Default for HeaderFields {
    fn default() -> (r: HeaderFields)
        ensures
            r@ == Seq::<(FieldName, FieldValue)>::empty(),
    {
        HeaderFields::new()
    }
}

impl Clone for HeaderFields {
    /// A copy with the same names and values, in order.
    fn clone(&self) -> (r: HeaderFields)
        ensures
            r@.len() == self@.len(),
            forall|i: int|
                0 <= i < self@.len() ==> (#[trigger] r@[i]).0@ == self@[i].0@ && r@[i].1.same_value(
                    self@[i].1,
                ),
    {
        let mut copy: Vec<(FieldName, FieldValue)> = Vec::new();
        let mut i: usize = 0;
        while i < self.inner.len()
            invariant
                i <= self@.len(),
                self@ == self.inner@,
                copy@.len() == i,
                forall|j: int|
                    0 <= j < i ==> (#[trigger] copy@[j]).0@ == self@[j].0@ && copy@[j].1.same_value(
                        self@[j].1,
                    ),
            decreases self@.len() - i,
        {
            let entry = &self.inner[i];
            copy.push((entry.0.clone(), entry.1.clone()));
            i += 1;
        }
        HeaderFields { inner: copy }
    }
}

/// `first_match` is the position of the first match, when there is one.
proof fn lemma_first_match(s: Seq<(FieldName, FieldValue)>, key: Seq<char>)
    ensures
        0 <= first_match(s, key) <= s.len(),
        (first_match(s, key) < s.len()) == (values_for(s, key).len() > 0),
        first_match(s, key) < s.len() ==> name_matches(s[first_match(s, key)].0, key)
            && s[first_match(s, key)].1 == values_for(s, key)[0],
        forall|j: int| 0 <= j < first_match(s, key) ==> !name_matches(s[j].0, key),
    decreases s.len(),
{
    if s.len() > 0 {
        lemma_first_match(s.drop_first(), key);
    }
}

} // verus!
