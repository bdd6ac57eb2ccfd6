//! A lossless mapping from arbitrary bytes to displayable text and back.
//!
//! Valid UTF-8 runs are kept as text. Each byte of an invalid run becomes the
//! escape marker U+FFFD followed by one of 256 private-use code points that
//! stands for the byte. A real U+FFFD in valid text is followed by the
//! literal marker U+E007F so that decoding can tell the two apart.
use vstd::prelude::*;
use vstd::utf8::*;
use crate::text::{lossy_text_of, push_char, string_from_utf8, text_from_utf8_lossy};

verus! {

broadcast use {vstd::seq_lib::group_seq_properties, vstd::utf8::char_is_scalar};

/// The escape marker, U+FFFD.
pub open spec fn escape_marker() -> char {
    '\u{FFFD}'
}

/// The marker that follows a literal escape marker, U+E007F.
pub open spec fn literal_marker() -> char {
    '\u{E007F}'
}

/// The code point that stands for byte `b` after an escape marker.
pub open spec fn byte_code(b: u8) -> u32 {
    if b < 0x10 {
        (0xFE00 + b) as u32
    } else {
        (0xE0100 + b - 0x10) as u32
    }
}

/// The byte that code point `c` stands for, if it is one of the 256 byte
/// code points.
pub open spec fn code_byte(c: char) -> Option<u8> {
    if 0xFE00 <= c as u32 <= 0xFE0F {
        Some((c as u32 - 0xFE00) as u8)
    } else if 0xE0100 <= c as u32 <= 0xE01EF {
        Some((c as u32 - 0xE0100 + 0x10) as u8)
    } else {
        None
    }
}

/// The text that `bytes` is rendered as.
pub open spec fn escaped_text(bytes: Seq<u8>) -> Seq<char>
    decreases bytes.len(),
{
    if bytes.len() == 0 {
        seq![]
    } else if valid_first_scalar(bytes) {
        let c = decode_first_scalar(bytes) as char;
        if c == escape_marker() {
            seq![c, literal_marker()] + escaped_text(pop_first_scalar(bytes))
        } else {
            seq![c] + escaped_text(pop_first_scalar(bytes))
        }
    } else {
        seq![escape_marker(), byte_code(bytes[0]) as char] + escaped_text(bytes.drop_first())
    }
}

/// The bytes that the text `cs` stands for.
pub open spec fn unescaped_bytes(cs: Seq<char>) -> Seq<u8>
    decreases cs.len(),
{
    if cs.len() == 0 {
        seq![]
    } else if cs[0] == escape_marker() && cs.len() >= 2 {
        let rest = unescaped_bytes(cs.subrange(2, cs.len() as int));
        if cs[1] == literal_marker() {
            encode_scalar(cs[0] as u32) + rest
        } else if code_byte(cs[1]) is Some {
            seq![code_byte(cs[1])->0] + rest
        } else {
            encode_scalar(cs[0] as u32) + encode_scalar(cs[1] as u32) + rest
        }
    } else {
        encode_scalar(cs[0] as u32) + unescaped_bytes(cs.drop_first())
    }
}


/// Encoding a concatenation encodes each part.
pub proof fn lemma_encode_concat(a: Seq<char>, b: Seq<char>)
    ensures
        encode_utf8(a + b) == encode_utf8(a) + encode_utf8(b),
    decreases a.len(),
{
    if a.len() == 0 {
        assert(a + b =~= b);
    } else {
        assert((a + b).drop_first() =~= a.drop_first() + b);
        lemma_encode_concat(a.drop_first(), b);
    }
}

/// The encoding of a single char is its scalar encoding.
pub proof fn lemma_encode_single(c: char)
    ensures
        encode_utf8(seq![c]) == encode_scalar(c as u32),
{
    assert(seq![c].drop_first() =~= Seq::<char>::empty());
    assert(encode_utf8(Seq::<char>::empty()) =~= Seq::<u8>::empty());
    assert(encode_scalar(c as u32) + Seq::<u8>::empty() =~= encode_scalar(c as u32));
}

/// A valid first scalar re-encodes to the bytes it was decoded from.
pub proof fn lemma_first_scalar_reencodes(bytes: Seq<u8>)
    requires
        valid_first_scalar(bytes),
    ensures
        encode_scalar((decode_first_scalar(bytes) as char) as u32) == take_first_scalar(bytes),
        1 <= length_of_first_scalar(bytes) <= 4,
        length_of_first_scalar(bytes) <= bytes.len(),
{
    let t = take_first_scalar(bytes);
    let k = length_of_first_scalar(bytes);
    assert(t.len() == k);
    assert(forall|j: int| 0 <= j < k ==> t[j] == bytes[j]);
    assert(valid_first_scalar(t));
    assert(decode_first_scalar(t) == decode_first_scalar(bytes));
    assert(length_of_first_scalar(t) == k);
    assert(pop_first_scalar(t) =~= Seq::<u8>::empty());
    assert(valid_utf8(pop_first_scalar(t)));
    assert(valid_utf8(t));
    decode_utf8_first_scalar(t);
    assert(take_first_scalar(t) =~= t);
}

/// Decoding the rendering of any byte sequence gives the bytes back.
pub proof fn lemma_round_trip(bytes: Seq<u8>)
    ensures
        unescaped_bytes(escaped_text(bytes)) == bytes,
    decreases bytes.len(),
{
    if bytes.len() == 0 {
    } else if valid_first_scalar(bytes) {
        let c = decode_first_scalar(bytes) as char;
        let rest = pop_first_scalar(bytes);
        lemma_first_scalar_reencodes(bytes);
        lemma_round_trip(rest);
        let e = escaped_text(bytes);
        assert(bytes =~= take_first_scalar(bytes) + rest);
        if c == escape_marker() {
            assert(e.subrange(2, e.len() as int) =~= escaped_text(rest));
        } else {
            assert(e.drop_first() =~= escaped_text(rest));
        }
    } else {
        let b = bytes[0];
        let e = escaped_text(bytes);
        let code = byte_code(b);
        assert((code as char) as u32 == code);
        assert(e.subrange(2, e.len() as int) =~= escaped_text(bytes.drop_first()));
        lemma_round_trip(bytes.drop_first());
        assert(bytes =~= seq![b] + bytes.drop_first());
    }
}


/// Appends the UTF-8 encoding of the scalar value `v`.
fn push_scalar_bytes(out: &mut Vec<u8>, v: u32)
    requires
        is_scalar(v),
    ensures
        final(out)@ == old(out)@ + encode_scalar(v),
{
    if v <= 0x7F {
        out.push((v & 0x7F) as u8);
    } else if v <= 0x7FF {
        out.push(0xC0 | ((v >> 6) & 0x1F) as u8);
        out.push(0x80 | (v & 0x3F) as u8);
    } else if v <= 0xFFFF {
        out.push(0xE0 | ((v >> 12) & 0x0F) as u8);
        out.push(0x80 | ((v >> 6) & 0x3F) as u8);
        out.push(0x80 | (v & 0x3F) as u8);
    } else {
        out.push(0xF0 | ((v >> 18) & 0x7) as u8);
        out.push(0x80 | ((v >> 12) & 0x3F) as u8);
        out.push(0x80 | ((v >> 6) & 0x3F) as u8);
        out.push(0x80 | (v & 0x3F) as u8);
    }
}

/// Appends the UTF-8 encoding of `c`.
fn push_char_bytes(out: &mut Vec<u8>, c: char)
    ensures
        final(out)@ == old(out)@ + encode_scalar(c as u32),
{
    let v = c as u32;
    proof {
        char_is_scalar(c);
    }
    assert(is_scalar(v));
    push_scalar_bytes(out, v);
}

/// The length of the valid UTF-8 scalar that starts at `i`, or 0 when the
/// bytes there do not start one.
fn scalar_len_at(b: &[u8], i: usize) -> (r: usize)
    requires
        i < b@.len(),
    ensures
        r == 0 <==> !valid_first_scalar(b@.subrange(i as int, b@.len() as int)),
        r != 0 ==> r == length_of_first_scalar(b@.subrange(i as int, b@.len() as int)),
        i + r <= b@.len(),
{
    let ghost s = b@.subrange(i as int, b@.len() as int);
    let n = b.len() - i;
    let b0 = b[i];
    assert(forall|j: int| 0 <= j < n ==> s[j] == b@[i + j]);
    assert(s.len() == n);
    if b0 <= 0x7f {
        assert(((b0 & 0x7F) as u32) <= 0x7F) by (bit_vector);
        return 1;
    }
    if 0xc0 <= b0 && b0 <= 0xdf {
        if n < 2 || !(0x80 <= b[i + 1] && b[i + 1] <= 0xbf) {
            return 0;
        }
        let b1 = b[i + 1];
        let cp: u32 = (((b0 & 0x1F) as u32) << 6) | ((b1 & 0x3f) as u32);
        assert(cp == decode_first_codepoint(s));
        assert((((b0 & 0x1F) as u32) << 6) | ((b1 & 0x3f) as u32) <= 0x7FF) by (bit_vector);
        if 0x80 <= cp { 2 } else { 0 }
    } else if 0xe0 <= b0 && b0 <= 0xef {
        if n < 3 || !(0x80 <= b[i + 1] && b[i + 1] <= 0xbf) || !(0x80 <= b[i + 2] && b[i + 2]
            <= 0xbf) {
            return 0;
        }
        let cp: u32 = (((b0 & 0x0F) as u32) << 12) | (((b[i + 1] & 0x3f) as u32) << 6) | ((b[i
            + 2] & 0x3f) as u32);
        assert(cp == decode_first_codepoint(s));
        if 0x800 <= cp && !(0xD800 <= cp && cp <= 0xDFFF) { 3 } else { 0 }
    } else if 0xf0 <= b0 && b0 <= 0xf7 {
        if n < 4 || !(0x80 <= b[i + 1] && b[i + 1] <= 0xbf) || !(0x80 <= b[i + 2] && b[i + 2]
            <= 0xbf) || !(0x80 <= b[i + 3] && b[i + 3] <= 0xbf) {
            return 0;
        }
        let cp: u32 = (((b0 & 0x07) as u32) << 18) | (((b[i + 1] & 0x3f) as u32) << 12) | (((b[i
            + 2] & 0x3f) as u32) << 6) | ((b[i + 3] & 0x3f) as u32);
        assert(cp == decode_first_codepoint(s));
        if 0x10000 <= cp && cp <= 0x10ffff && !(0xD800 <= cp && cp <= 0xDFFF) { 4 } else { 0 }
    } else {
        0
    }
}

/// The code point that stands for `byte` after an escape marker.
fn byte_to_escape_seq(byte: u8) -> (r: u32)
    ensures
        r == byte_code(byte),
        is_scalar(r),
{
    if byte <= 0x0f {
        0xFE00 + byte as u32
    } else {
        0xE0100 + byte as u32 - 0x10
    }
}

/// The byte that `ch` stands for after an escape marker, if any.
fn escape_seq_to_byte(ch: char) -> (r: Option<u8>)
    ensures
        r == code_byte(ch),
{
    let v = ch as u32;
    if 0xFE00 <= v && v <= 0xFE0F {
        Some((v - 0xFE00) as u8)
    } else if 0xE0100 <= v && v <= 0xE01EF {
        Some((v - 0xE0100 + 0x10) as u8)
    } else {
        None
    }
}

/// Renders arbitrary bytes as text that `utf8_escaped_to_bytes` turns back
/// into the same bytes.
pub fn parse_utf8_escaped(input: &[u8]) -> (r: String)
    ensures
        r@ == escaped_text(input@),
{
    let mut out: Vec<u8> = Vec::new();
    let mut i: usize = 0;
    let ghost mut done: Seq<char> = seq![];
    assert(input@.subrange(0, input@.len() as int) =~= input@);
    while i < input.len()
        invariant
            i <= input@.len(),
            done + escaped_text(input@.subrange(i as int, input@.len() as int)) == escaped_text(
                input@,
            ),
            out@ == encode_utf8(done),
        decreases input@.len() - i,
    {
        let ghost s = input@.subrange(i as int, input@.len() as int);
        let k = scalar_len_at(input, i);
        if k > 0 {
            proof {
                lemma_first_scalar_reencodes(s);
            }
            let ghost c = #[verifier::truncate] (decode_first_scalar(s) as char);
            let ghost piece: Seq<char>;
            if k == 3 && input[i] == 0xEF && input[i + 1] == 0xBF && input[i + 2] == 0xBD {
                push_scalar_bytes(&mut out, 0xFFFD);
                push_scalar_bytes(&mut out, 0xE007F);
                proof {
                    let t = take_first_scalar(s);
                    assert(t =~= seq![0xEFu8, 0xBFu8, 0xBDu8]);
                    assert(decode_first_scalar(s) == 0xFFFD) by {
                        assert((((0xEFu8 & 0x0F) as u32) << 12) | (((0xBFu8 & 0x3f) as u32) << 6)
                            | ((0xBDu8 & 0x3f) as u32) == 0xFFFD) by (bit_vector);
                    }
                    assert(c == escape_marker());
                    piece = seq![c, literal_marker()];
                    assert(piece =~= seq![c] + seq![literal_marker()]);
                    lemma_encode_concat(seq![c], seq![literal_marker()]);
                    lemma_encode_single(c);
                    lemma_encode_single(literal_marker());
                }
            } else {
                let end = i + k;
                let mut p: usize = i;
                while p < end
                    invariant
                        end == i + k,
                        end <= input@.len(),
                        i <= p <= end,
                        out@ == encode_utf8(done) + input@.subrange(i as int, p as int),
                    decreases end - p,
                {
                    out.push(input[p]);
                    assert(input@.subrange(i as int, p + 1) =~= input@.subrange(
                        i as int,
                        p as int,
                    ).push(input@[p as int]));
                    p += 1;
                }
                proof {
                    assert(input@.subrange(i as int, i + k) =~= take_first_scalar(s));
                    if c == escape_marker() {
                        assert(encode_scalar(0xFFFD) =~= seq![0xEFu8, 0xBFu8, 0xBDu8]) by {
                            assert(0xE0 | ((0xFFFDu32 >> 12) & 0x0F) as u8 == 0xEF) by (bit_vector);
                            assert(0x80 | ((0xFFFDu32 >> 6) & 0x3F) as u8 == 0xBF) by (bit_vector);
                            assert(0x80 | (0xFFFDu32 & 0x3F) as u8 == 0xBD) by (bit_vector);
                        }
                        assert(false);
                    }
                    piece = seq![c];
                    lemma_encode_single(c);
                }
            }
            proof {
                assert(pop_first_scalar(s) =~= input@.subrange(i + k, input@.len() as int));
                assert(escaped_text(s) == piece + escaped_text(pop_first_scalar(s)));
                lemma_encode_concat(done, piece);
                assert(done + piece + escaped_text(pop_first_scalar(s)) =~= done + (piece
                    + escaped_text(pop_first_scalar(s))));
                done = done + piece;
            }
            i = i + k;
        } else {
            let code = byte_to_escape_seq(input[i]);
            push_scalar_bytes(&mut out, 0xFFFD);
            push_scalar_bytes(&mut out, code);
            proof {
                let piece = seq![escape_marker(), code as char];
                assert((code as char) as u32 == code);
                assert(piece =~= seq![escape_marker()] + seq![code as char]);
                lemma_encode_concat(seq![escape_marker()], seq![code as char]);
                lemma_encode_single(escape_marker());
                lemma_encode_single(code as char);
                assert(s.drop_first() =~= input@.subrange(i + 1, input@.len() as int));
                assert(escaped_text(s) == piece + escaped_text(s.drop_first()));
                lemma_encode_concat(done, piece);
                assert(done + piece + escaped_text(s.drop_first()) =~= done + (piece
                    + escaped_text(s.drop_first())));
                done = done + piece;
            }
            i = i + 1;
        }
    }
    proof {
        assert(input@.subrange(i as int, input@.len() as int) =~= Seq::<u8>::empty());
        assert(done + Seq::<char>::empty() =~= done);
        encode_utf8_valid_utf8(done);
        encode_utf8_decode_utf8(done);
    }
    match string_from_utf8(out) {
        Ok(text) => text,
        Err(_) => String::new(),
    }
}


/// The chars of `s`, in order.
pub(crate) fn chars_of(s: &str) -> (r: Vec<char>)
    ensures
        r@ == s@,
{
    let mut out: Vec<char> = Vec::new();
    for ch in it: s.chars()
        invariant
            it.seq() == s@,
            out@ == it.seq().take(it.index() as int),
    {
        out.push(ch);
        assert(it.seq().take(it.index() + 1) =~= it.seq().take(it.index() as int).push(ch));
    }
    assert(out@ =~= s@);
    out
}

/// Decodes the piece of `cs` that starts at `i`, appending its bytes, and
/// returns where the next piece starts.
fn decode_piece(cs: &Vec<char>, i: usize, out: &mut Vec<u8>) -> (next: usize)
    requires
        i < cs@.len(),
    ensures
        i < next <= cs@.len(),
        final(out)@ + unescaped_bytes(cs@.subrange(next as int, cs@.len() as int)) == old(out)@
            + unescaped_bytes(cs@.subrange(i as int, cs@.len() as int)),
{
    let ghost rest = cs@.subrange(i as int, cs@.len() as int);
    let n = cs.len();
    let c = cs[i];
    if c == '\u{FFFD}' && n - i > 1 {
        let d = cs[i + 1];
        let ghost tail = unescaped_bytes(rest.subrange(2, rest.len() as int));
        assert(rest.subrange(2, rest.len() as int) =~= cs@.subrange(i + 2, cs@.len() as int));
        if d == '\u{E007F}' {
            assert(unescaped_bytes(rest) == encode_scalar(c as u32) + tail);
            push_char_bytes(out, c);
        } else {
            match escape_seq_to_byte(d) {
                Some(byte) => {
                    assert(unescaped_bytes(rest) == seq![byte] + tail);
                    out.push(byte);
                },
                None => {
                    assert(unescaped_bytes(rest) == encode_scalar(c as u32) + encode_scalar(
                        d as u32,
                    ) + tail);
                    push_char_bytes(out, c);
                    push_char_bytes(out, d);
                },
            }
        }
        i + 2
    } else {
        assert(rest.drop_first() =~= cs@.subrange(i + 1, cs@.len() as int));
        assert(unescaped_bytes(rest) == encode_scalar(c as u32) + unescaped_bytes(
            rest.drop_first(),
        ));
        push_char_bytes(out, c);
        i + 1
    }
}

/// Turns text rendered by `parse_utf8_escaped` back into the bytes it stands
/// for.
pub fn utf8_escaped_to_bytes(input: &str) -> (r: Vec<u8>)
    ensures
        r@ == unescaped_bytes(input@),
{
    let cs = chars_of(input);
    let mut out: Vec<u8> = Vec::new();
    let mut i: usize = 0;
    assert(cs@.subrange(0, cs@.len() as int) =~= cs@);
    while i < cs.len()
        invariant
            cs@ == input@,
            i <= cs@.len(),
            out@ + unescaped_bytes(cs@.subrange(i as int, cs@.len() as int)) == unescaped_bytes(
                cs@,
            ),
        decreases cs@.len() - i,
    {
        i = decode_piece(&cs, i, &mut out);
    }
    assert(cs@.subrange(i as int, cs@.len() as int) =~= Seq::<char>::empty());
    assert(out@ + Seq::<u8>::empty() =~= out@);
    out
}


/// A bounded preview of `data` for diagnostics: the bytes as lossy text,
/// cut at `length` bytes with an ellipsis appended when longer.
pub fn preview_bytes(data: &[u8], length: usize) -> (r: String)
    ensures
        data@.len() <= length ==> r@ == lossy_text_of(data@),
        data@.len() > length ==> r@ == lossy_text_of(data@.take(length as int)).push('\u{2026}'),
{
    if data.len() <= length {
        text_from_utf8_lossy(data)
    } else {
        let head = &data[0..length];
        assert(head@ =~= data@.take(length as int));
        let mut text = text_from_utf8_lossy(head);
        push_char(&mut text, '\u{2026}');
        text
    }
}

} // verus!
