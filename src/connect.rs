//! Best-effort extraction of the peer address from the transport's
//! diagnostic log lines.
use vstd::prelude::*;

verus! {

/// The pattern of the transport's "connected" log line; its groups are the
/// peer's IP address and port.
pub const CONNECT_PATTERN: &'static str = r"Connected to .+ \(([0-9.:]+)\) port (\d+)";

/// An IPv4 address, as its four bytes in order: `a.b.c.d`.
#[derive(Debug, Clone, Copy, PartialEq, Eq, Structural)]
pub struct Ipv4Address {
    pub a: u8,
    pub b: u8,
    pub c: u8,
    pub d: u8,
}

/// An IPv6 address, as its eight 16-bit groups in order.
#[derive(Debug, Clone, Copy, PartialEq, Eq, Structural)]
pub struct Ipv6Address {
    pub g0: u16,
    pub g1: u16,
    pub g2: u16,
    pub g3: u16,
    pub g4: u16,
    pub g5: u16,
    pub g6: u16,
    pub g7: u16,
}

/// An IP address of either family.
#[derive(Debug, Clone, Copy, PartialEq, Eq, Structural)]
pub enum IpAddress {
    V4(Ipv4Address),
    V6(Ipv6Address),
}

/// A peer address: an IP address and a port.
#[derive(Debug, Clone, Copy, PartialEq, Eq, Structural)]
pub struct SocketAddress {
    pub ip: IpAddress,
    pub port: u16,
}

/// The capture groups of the leftmost match of regex `pattern` in `text`:
/// `None` when the pattern does not compile or does not match, else one
/// entry per group, the whole match first, `None` for a group that did not
/// take part.
pub uninterp spec fn regex_groups_of(pattern: Seq<char>, text: Seq<char>) -> Option<
    Seq<Option<Seq<char>>>,
>;

/// The plain value of capture groups.
pub open spec fn groups_view(g: Seq<Option<String>>) -> Seq<Option<Seq<char>>> {
    g.map_values(|o: Option<String>| match o {
        Some(s) => Some(s@),
        None => None,
    })
}

/// Relies on `regex::Regex::new` and `Regex::captures`.
#[verifier::external_body]
fn regex_groups(pattern: &str, text: &str) -> (r: Option<Vec<Option<String>>>)
    ensures
        match r {
            Some(g) => regex_groups_of(pattern@, text@) == Some(groups_view(g@)),
            None => regex_groups_of(pattern@, text@) is None,
        },
{
    let captures = regex::Regex::new(pattern).ok()?.captures(text)?;
    Some(captures.iter().map(|g| g.map(|m| m.as_str().to_string())).collect())
}

/// The value of a string of ASCII decimal digits.
pub open spec fn decimal_value(s: Seq<char>) -> int
    decreases s.len(),
{
    if s.len() == 0 {
        0
    } else {
        decimal_value(s.drop_last()) * 10 + (s.last() as int - '0' as int)
    }
}

/// Whether `s` is a non-empty string of ASCII decimal digits.
pub open spec fn all_digits(s: Seq<char>) -> bool {
    s.len() > 0 && forall|i: int| 0 <= i < s.len() ==> '0' <= #[trigger] s[i] <= '9'
}

/// The port number that `s` spells, when it is ASCII digits whose value
/// fits in 16 bits.
pub fn parse_port(s: &str) -> (r: Option<u16>)
    ensures
        r matches Some(p) ==> all_digits(s@) && p == decimal_value(s@),
        r is None ==> !all_digits(s@) || decimal_value(s@) > 0xFFFF,
{
    let cs = crate::escape::chars_of(s);
    if cs.len() == 0 {
        return None;
    }
    let mut value: u32 = 0;
    let mut i: usize = 0;
    while i < cs.len()
        invariant
            cs@ == s@,
            i <= cs@.len(),
            all_digits(cs@.take(i as int)) || i == 0,
            value == decimal_value(cs@.take(i as int)),
            value <= 0xFFFF,
        decreases cs@.len() - i,
    {
        let c = cs[i];
        assert(cs@.take(i + 1).drop_last() =~= cs@.take(i as int));
        if !('0' <= c && c <= '9') {
            assert(!all_digits(s@)) by {
                assert(!('0' <= s@[i as int] <= '9'));
            }
            return None;
        }
        let digit = (c as u32) - ('0' as u32);
        let next = value * 10 + digit;
        if next > 0xFFFF {
            proof {
                if all_digits(s@) {
                    lemma_decimal_prefix_bound(cs@, i as int + 1);
                }
            }
            return None;
        }
        value = next;
        i += 1;
    }
    assert(cs@.take(cs@.len() as int) =~= cs@);
    Some(value as u16)
}

/// A digit string has a value no smaller than that of any of its prefixes.
proof fn lemma_decimal_prefix_bound(s: Seq<char>, k: int)
    requires
        all_digits(s),
        0 <= k <= s.len(),
    ensures
        0 <= decimal_value(s.take(k)) <= decimal_value(s),
    decreases s.len() - k,
{
    lemma_decimal_nonneg(s.take(k));
    if k == s.len() {
        assert(s.take(k) =~= s);
    } else {
        lemma_decimal_prefix_bound(s, k + 1);
        assert(s.take(k + 1).drop_last() =~= s.take(k));
    }
}

/// The value of a string of digits is not negative.
proof fn lemma_decimal_nonneg(s: Seq<char>)
    requires
        forall|i: int| 0 <= i < s.len() ==> '0' <= #[trigger] s[i] <= '9',
    ensures
        decimal_value(s) >= 0,
    decreases s.len(),
{
    if s.len() > 0 {
        lemma_decimal_nonneg(s.drop_last());
    }
}

/// The pieces of `s` between the chars `sep`, in order; there is always at
/// least one.
pub open spec fn pieces(s: Seq<char>, sep: char) -> Seq<Seq<char>>
    decreases s.len(),
{
    if s.len() == 0 {
        seq![seq![]]
    } else if s.last() == sep {
        pieces(s.drop_last(), sep).push(seq![])
    } else {
        let p = pieces(s.drop_last(), sep);
        p.update(p.len() - 1, p.last().push(s.last()))
    }
}

/// The byte that a dotted-decimal piece spells: one to three digits, no
/// leading zero unless the piece is "0", and at most 255.
pub open spec fn octet_value(p: Seq<char>) -> Option<u8> {
    if 1 <= p.len() <= 3 && all_digits(p) && (p.len() > 1 ==> p[0] != '0') && decimal_value(p)
        <= 255 {
        Some(decimal_value(p) as u8)
    } else {
        None
    }
}

/// The IPv4 address that `s` spells in dotted-decimal form.
pub open spec fn ipv4_of(s: Seq<char>) -> Option<Ipv4Address> {
    let ps = pieces(s, '.');
    if ps.len() == 4 && octet_value(ps[0]) is Some && octet_value(ps[1]) is Some && octet_value(
        ps[2],
    ) is Some && octet_value(ps[3]) is Some {
        Some(
            Ipv4Address {
                a: octet_value(ps[0])->0,
                b: octet_value(ps[1])->0,
                c: octet_value(ps[2])->0,
                d: octet_value(ps[3])->0,
            },
        )
    } else {
        None
    }
}

/// The plain value of pieces.
pub open spec fn pieces_view(v: Seq<Vec<char>>) -> Seq<Seq<char>> {
    v.map_values(|p: Vec<char>| p@)
}

/// Splits `cs` at every `sep`.
fn split_chars(cs: &Vec<char>, sep: char) -> (r: Vec<Vec<char>>)
    ensures
        pieces_view(r@) == pieces(cs@, sep),
{
    let mut out: Vec<Vec<char>> = Vec::new();
    out.push(Vec::new());
    let mut i: usize = 0;
    assert(pieces_view(out@) =~= pieces(cs@.take(0), sep));
    while i < cs.len()
        invariant
            i <= cs@.len(),
            out@.len() >= 1,
            pieces_view(out@) == pieces(cs@.take(i as int), sep),
        decreases cs@.len() - i,
    {
        let c = cs[i];
        let ghost before = pieces_view(out@);
        assert(cs@.take(i + 1).drop_last() =~= cs@.take(i as int));
        assert(cs@.take(i + 1).last() == c);
        if c == sep {
            out.push(Vec::new());
            assert(pieces_view(out@) =~= before.push(seq![]));
        } else {
            let mut last = out.pop().unwrap();
            last.push(c);
            out.push(last);
            assert(pieces_view(out@) =~= before.update(before.len() - 1, before.last().push(c)));
        }
        i += 1;
    }
    assert(cs@.take(cs@.len() as int) =~= cs@);
    out
}

/// The byte a dotted-decimal piece spells.
fn parse_octet(p: &Vec<char>) -> (r: Option<u8>)
    ensures
        r == octet_value(p@),
{
    let n = p.len();
    if n < 1 || n > 3 {
        return None;
    }
    if n > 1 && p[0] == '0' {
        return None;
    }
    let mut value: u32 = 0;
    let mut i: usize = 0;
    while i < n
        invariant
            n == p@.len(),
            1 <= n <= 3,
            i <= n,
            forall|j: int| 0 <= j < i ==> '0' <= #[trigger] p@[j] <= '9',
            value == decimal_value(p@.take(i as int)),
            i == 0 ==> value == 0,
            i == 1 ==> value < 10,
            i == 2 ==> value < 100,
            value < 1000,
        decreases n - i,
    {
        let c = p[i];
        assert(p@.take(i + 1).drop_last() =~= p@.take(i as int));
        if !('0' <= c && c <= '9') {
            return None;
        }
        value = value * 10 + ((c as u32) - ('0' as u32));
        i += 1;
    }
    assert(p@.take(n as int) =~= p@);
    if value > 255 {
        return None;
    }
    Some(value as u8)
}

/// Parses an IPv4 address in dotted-decimal form.
pub fn parse_ipv4(s: &str) -> (r: Option<Ipv4Address>)
    ensures
        r == ipv4_of(s@),
{
    let cs = crate::escape::chars_of(s);
    ipv4_from_chars(&cs)
}

/// The IPv4 address that `cs` spells in dotted-decimal form.
fn ipv4_from_chars(cs: &Vec<char>) -> (r: Option<Ipv4Address>)
    ensures
        r == ipv4_of(cs@),
{
    let ps = split_chars(cs, '.');
    assert(pieces_view(ps@).len() == ps@.len());
    if ps.len() != 4 {
        return None;
    }
    assert(ps@[0]@ == pieces(cs@, '.')[0] && ps@[1]@ == pieces(cs@, '.')[1]);
    assert(ps@[2]@ == pieces(cs@, '.')[2] && ps@[3]@ == pieces(cs@, '.')[3]);
    let a = parse_octet(&ps[0]);
    let b = parse_octet(&ps[1]);
    let c = parse_octet(&ps[2]);
    let d = parse_octet(&ps[3]);
    match (a, b, c, d) {
        (Some(a), Some(b), Some(c), Some(d)) => Some(Ipv4Address { a, b, c, d }),
        _ => None,
    }
}

/// The value of a hexadecimal digit.
pub open spec fn hex_digit(c: char) -> Option<nat> {
    if '0' <= c <= '9' {
        Some((c as u32 - '0' as u32) as nat)
    } else if 'a' <= c <= 'f' {
        Some((c as u32 - 'a' as u32 + 10) as nat)
    } else if 'A' <= c <= 'F' {
        Some((c as u32 - 'A' as u32 + 10) as nat)
    } else {
        None
    }
}

/// The value of a string of hexadecimal digits.
pub open spec fn hex_value(s: Seq<char>) -> nat
    decreases s.len(),
{
    if s.len() == 0 {
        0
    } else {
        hex_value(s.drop_last()) * 16 + match hex_digit(s.last()) {
            Some(d) => d,
            None => 0,
        }
    }
}

/// The 16-bit group that an IPv6 piece of one to four hexadecimal digits
/// spells.
pub open spec fn hex_group(p: Seq<char>) -> Option<u16> {
    if 1 <= p.len() <= 4 && forall|i: int| 0 <= i < p.len() ==> #[trigger] hex_digit(p[i]) is Some {
        Some(hex_value(p) as u16)
    } else {
        None
    }
}

/// The two groups that an embedded IPv4 address stands for.
pub open spec fn v4_groups(a: Ipv4Address) -> Seq<u16> {
    seq![(a.a * 256 + a.b) as u16, (a.c * 256 + a.d) as u16]
}

/// The groups that IPv6 pieces stand for, every piece a hexadecimal group,
/// except that the last may be an IPv4 address when `v4_last` holds.
pub open spec fn group_values(ps: Seq<Seq<char>>, v4_last: bool) -> Option<Seq<u16>>
    decreases ps.len(),
{
    if ps.len() == 0 {
        Some(seq![])
    } else if v4_last && ps.len() == 1 && ipv4_of(ps[0]) is Some {
        Some(v4_groups(ipv4_of(ps[0])->0))
    } else if hex_group(ps[0]) is Some {
        match group_values(ps.drop_first(), v4_last) {
            Some(rest) => Some(seq![hex_group(ps[0])->0] + rest),
            None => None,
        }
    } else {
        None
    }
}

/// The position of the first empty piece, or the number of pieces.
pub open spec fn first_empty(ps: Seq<Seq<char>>) -> int
    decreases ps.len(),
{
    if ps.len() == 0 {
        0
    } else if ps[0].len() == 0 {
        0
    } else {
        1 + first_empty(ps.drop_first())
    }
}

/// The groups after a "::": none when it ends the text, else those of the
/// pieces that follow it.
pub open spec fn tail_values(tail: Seq<Seq<char>>) -> Option<Seq<u16>> {
    if tail.len() == 1 && tail[0].len() == 0 {
        Some(seq![])
    } else if tail.len() == 0 {
        None
    } else {
        group_values(tail, true)
    }
}

/// The eight groups of an IPv6 address in text form: eight groups, or
/// fewer around one "::" that stands for at least one zero group; the last
/// two groups may be written as an IPv4 address.
pub open spec fn ipv6_groups(s: Seq<char>) -> Option<Seq<u16>> {
    let ps = pieces(s, ':');
    let k = first_empty(ps);
    if k >= ps.len() {
        match group_values(ps, true) {
            Some(g) => if g.len() == 8 {
                Some(g)
            } else {
                None
            },
            None => None,
        }
    } else if k == 0 && !(ps.len() >= 2 && ps[1].len() == 0) {
        None
    } else {
        let tail = ps.skip(if k == 0 { 2 } else { k + 1 });
        match (group_values(ps.take(k), false), tail_values(tail)) {
            (Some(h), Some(t)) => if h.len() + t.len() <= 7 {
                Some(h + Seq::new((8 - h.len() - t.len()) as nat, |i: int| 0u16) + t)
            } else {
                None
            },
            _ => None,
        }
    }
}

/// The IPv6 address that `s` spells.
pub open spec fn ipv6_of(s: Seq<char>) -> Option<Ipv6Address> {
    match ipv6_groups(s) {
        Some(g) => Some(
            Ipv6Address { g0: g[0], g1: g[1], g2: g[2], g3: g[3], g4: g[4], g5: g[5], g6: g[6], g7: g[7] },
        ),
        None => None,
    }
}

/// The IP address that `s` spells, in either family.
pub open spec fn ip_of(s: Seq<char>) -> Option<IpAddress> {
    if ipv4_of(s) is Some {
        Some(IpAddress::V4(ipv4_of(s)->0))
    } else if ipv6_of(s) is Some {
        Some(IpAddress::V6(ipv6_of(s)->0))
    } else {
        None
    }
}

/// The value of a hexadecimal digit.
fn parse_hex_digit(c: char) -> (r: Option<u32>)
    ensures
        match hex_digit(c) {
            Some(d) => r == Some(d as u32),
            None => r is None,
        },
{
    if '0' <= c && c <= '9' {
        Some((c as u32) - ('0' as u32))
    } else if 'a' <= c && c <= 'f' {
        Some((c as u32) - ('a' as u32) + 10)
    } else if 'A' <= c && c <= 'F' {
        Some((c as u32) - ('A' as u32) + 10)
    } else {
        None
    }
}

/// The 16-bit group that an IPv6 piece spells.
fn parse_hex_group(p: &Vec<char>) -> (r: Option<u16>)
    ensures
        r == hex_group(p@),
{
    let n = p.len();
    if n < 1 || n > 4 {
        return None;
    }
    let mut value: u32 = 0;
    let mut i: usize = 0;
    while i < n
        invariant
            n == p@.len(),
            1 <= n <= 4,
            i <= n,
            forall|j: int| 0 <= j < i ==> #[trigger] hex_digit(p@[j]) is Some,
            value == hex_value(p@.take(i as int)),
            i == 0 ==> value == 0,
            i == 1 ==> value < 16,
            i == 2 ==> value < 256,
            i == 3 ==> value < 4096,
            value < 65536,
        decreases n - i,
    {
        assert(p@.take(i + 1).drop_last() =~= p@.take(i as int));
        let d = match parse_hex_digit(p[i]) {
            Some(d) => d,
            None => return None,
        };
        value = value * 16 + d;
        i += 1;
    }
    assert(p@.take(n as int) =~= p@);
    Some(value as u16)
}

/// The groups of pieces `start..end` of `ps`.
fn group_values_from(ps: &Vec<Vec<char>>, start: usize, end: usize, v4_last: bool) -> (r: Option<
    Vec<u16>,
>)
    requires
        start <= end <= ps@.len(),
    ensures
        match group_values(pieces_view(ps@).subrange(start as int, end as int), v4_last) {
            Some(g) => r matches Some(v) && v@ == g,
            None => r is None,
        },
    decreases end - start,
{
    let ghost sub = pieces_view(ps@).subrange(start as int, end as int);
    if start == end {
        return Some(Vec::new());
    }
    assert(sub[0] == ps@[start as int]@);
    assert(sub.drop_first() =~= pieces_view(ps@).subrange(start + 1, end as int));
    if v4_last && end - start == 1 {
        if let Some(a) = ipv4_from_chars(&ps[start]) {
            let mut v: Vec<u16> = Vec::new();
            v.push((a.a as u16) * 256 + a.b as u16);
            v.push((a.c as u16) * 256 + a.d as u16);
            assert((a.a as u16) * 256 + a.b as u16 == (a.a * 256 + a.b) as u16);
            assert(v@ =~= v4_groups(a));
            return Some(v);
        }
    }
    match parse_hex_group(&ps[start]) {
        Some(g) => match group_values_from(ps, start + 1, end, v4_last) {
            Some(mut rest) => {
                let ghost old_rest = rest@;
                rest.insert(0, g);
                assert(rest@ =~= seq![g] + old_rest);
                Some(rest)
            },
            None => None,
        },
        None => None,
    }
}

/// The position of the first empty piece of `ps`, or its length.
fn find_empty(ps: &Vec<Vec<char>>) -> (r: usize)
    ensures
        r == first_empty(pieces_view(ps@)),
{
    let mut i: usize = 0;
    let ghost v = pieces_view(ps@);
    assert(v.subrange(0, v.len() as int) =~= v);
    while i < ps.len()
        invariant
            v == pieces_view(ps@),
            i <= v.len(),
            i + first_empty(v.subrange(i as int, v.len() as int)) == first_empty(v),
        decreases v.len() - i,
    {
        assert(v.subrange(i as int, v.len() as int).drop_first() =~= v.subrange(
            i + 1,
            v.len() as int,
        ));
        if ps[i].len() == 0 {
            return i;
        }
        i += 1;
    }
    i
}

/// Parses an IPv6 address in text form.
pub fn parse_ipv6(s: &str) -> (r: Option<Ipv6Address>)
    ensures
        r == ipv6_of(s@),
{
    let cs = crate::escape::chars_of(s);
    let ps = split_chars(&cs, ':');
    let ghost v = pieces_view(ps@);
    assert(v.len() == ps@.len());
    let k = find_empty(&ps);
    proof {
        lemma_first_empty_bound(v);
    }
    let groups: Vec<u16> = if k >= ps.len() {
        assert(v.subrange(0, v.len() as int) =~= v);
        match group_values_from(&ps, 0, ps.len(), true) {
            Some(g) => {
                if g.len() != 8 {
                    return None;
                }
                g
            },
            None => return None,
        }
    } else {
        if k == 0 && !(ps.len() >= 2 && ps[1].len() == 0) {
            return None;
        }
        let j: usize = if k == 0 { 2 } else { k + 1 };
        assert(v.take(k as int) =~= v.subrange(0, k as int));
        assert(v.skip(j as int) =~= v.subrange(j as int, v.len() as int));
        let head = match group_values_from(&ps, 0, k, false) {
            Some(h) => h,
            None => return None,
        };
        let tail: Vec<u16> = if ps.len() - j == 1 && ps[j].len() == 0 {
            Vec::new()
        } else if ps.len() == j {
            return None;
        } else {
            match group_values_from(&ps, j, ps.len(), true) {
                Some(t) => t,
                None => return None,
            }
        };
        if head.len() > 7 || tail.len() > 7 - head.len() {
            return None;
        }
        let zeros = 8 - head.len() - tail.len();
        let mut g: Vec<u16> = Vec::new();
        let mut i: usize = 0;
        while i < head.len()
            invariant
                i <= head@.len(),
                g@ == head@.take(i as int),
            decreases head@.len() - i,
        {
            g.push(head[i]);
            assert(head@.take(i + 1) =~= head@.take(i as int).push(head@[i as int]));
            i += 1;
        }
        let mut z: usize = 0;
        while z < zeros
            invariant
                z <= zeros,
                g@ == head@ + Seq::new(z as nat, |i: int| 0u16),
            decreases zeros - z,
        {
            g.push(0);
            assert(head@ + Seq::new((z + 1) as nat, |i: int| 0u16) =~= (head@ + Seq::new(
                z as nat,
                |i: int| 0u16,
            )).push(0));
            z += 1;
        }
        let mut t: usize = 0;
        let ghost base = g@;
        while t < tail.len()
            invariant
                t <= tail@.len(),
                g@ == base + tail@.take(t as int),
            decreases tail@.len() - t,
        {
            g.push(tail[t]);
            assert(tail@.take(t + 1) =~= tail@.take(t as int).push(tail@[t as int]));
            t += 1;
        }
        assert(tail@.take(tail@.len() as int) =~= tail@);
        assert(head@.take(head@.len() as int) =~= head@);
        g
    };
    assert(groups@ == ipv6_groups(s@)->0);
    Some(
        Ipv6Address {
            g0: groups[0],
            g1: groups[1],
            g2: groups[2],
            g3: groups[3],
            g4: groups[4],
            g5: groups[5],
            g6: groups[6],
            g7: groups[7],
        },
    )
}

proof fn lemma_first_empty_bound(ps: Seq<Seq<char>>)
    ensures
        0 <= first_empty(ps) <= ps.len(),
        first_empty(ps) < ps.len() ==> ps[first_empty(ps)].len() == 0,
    decreases ps.len(),
{
    if ps.len() > 0 && ps[0].len() > 0 {
        lemma_first_empty_bound(ps.drop_first());
    }
}

/// Parses an IP address of either family.
pub fn parse_ip(s: &str) -> (r: Option<IpAddress>)
    ensures
        r == ip_of(s@),
{
    match parse_ipv4(s) {
        Some(a) => Some(IpAddress::V4(a)),
        None => match parse_ipv6(s) {
            Some(a) => Some(IpAddress::V6(a)),
            None => None,
        },
    }
}

/// The address that the capture groups of the connect pattern describe:
/// an IPv4 address and a port that parse.
pub open spec fn address_from_groups(g: Option<Seq<Option<Seq<char>>>>) -> Option<SocketAddress> {
    match g {
        Some(groups) => if groups.len() >= 3 && groups[1] is Some && groups[2] is Some && ip_of(
            groups[1]->0,
        ) is Some && all_digits(groups[2]->0) && decimal_value(groups[2]->0) <= 0xFFFF {
            Some(
                SocketAddress {
                    ip: ip_of(groups[1]->0)->0,
                    port: decimal_value(groups[2]->0) as u16,
                },
            )
        } else {
            None
        },
        None => None,
    }
}

/// The peer address that a diagnostic line names, if it is a "connected"
/// line with an address that parses.
pub open spec fn connect_address_of(text: Seq<char>) -> Option<SocketAddress> {
    address_from_groups(regex_groups_of(CONNECT_PATTERN@, text))
}

/// Reads the peer address out of the capture groups of the connect
/// pattern.
pub fn connect_address_from_groups(groups: Option<Vec<Option<String>>>) -> (r: Option<SocketAddress>)
    ensures
        r == address_from_groups(
            match groups {
                Some(g) => Some(groups_view(g@)),
                None => None,
            },
        ),
{
    let mut groups = match groups {
        Some(g) => g,
        None => return None,
    };
    let ghost g = groups@;
    if groups.len() < 3 {
        return None;
    }
    let port_text = groups.remove(2);
    let ip_text = groups.remove(1);
    assert(ip_text == g[1] && port_text == g[2]);
    match (ip_text, port_text) {
        (Some(ip_text), Some(port_text)) => match (
            parse_ip(ip_text.as_str()),
            parse_port(port_text.as_str()),
        ) {
            (Some(ip), Some(port)) => Some(SocketAddress { ip, port }),
            _ => None,
        },
        _ => None,
    }
}

/// The peer address that a "connected" log line names, if it is one.
pub fn parse_connect_address(text: &str) -> (r: Option<SocketAddress>)
    ensures
        r == connect_address_of(text@),
{
    connect_address_from_groups(regex_groups(CONNECT_PATTERN, text))
}

} // verus!
