//! The data model shared by the parser, the wire format and the control
//! surface: keys, IP addresses, CIDR ranges, socket addresses and endpoints.

pub mod cmd;
pub mod config;
pub mod instance;
pub mod peer;

use crate::primitives::{decode_standard, encode_standard, standard_b64};
use crate::text::{
    all_digits, decimal, find, find_char, is_digit, parse_uint, parse_unsigned, split,
    split_ranges, substring, trim, trim_range,
};
use config::ParseError;
use vstd::prelude::*;

verus! {

/// A 32-byte public or private key.
#[derive(Debug, Clone, Copy, PartialEq, Eq, Hash)]
pub struct Key(pub [u8; 32]);

impl View for Key {
    type V = Seq<u8>;

    open spec fn view(&self) -> Seq<u8> {
        self.0@
    }
}

/// The key whose standard base64 text is `s`, if there is one.
pub open spec fn key_of_text(s: Seq<char>) -> Option<Seq<u8>> {
    if exists|b: Seq<u8>| b.len() == 32 && #[trigger] standard_b64(b) == s {
        Some(choose|b: Seq<u8>| b.len() == 32 && #[trigger] standard_b64(b) == s)
    } else {
        None
    }
}

/// Copies 32 bytes into an array.
fn key_bytes(v: &Vec<u8>) -> (r: [u8; 32])
    requires
        v@.len() == 32,
    ensures
        r@ == v@,
{
    let mut r = [0u8; 32];
    let mut i: usize = 0;
    while i < 32
        invariant
            i <= 32,
            v@.len() == 32,
            forall|j: int| 0 <= j < i ==> r@[j] == v@[j],
        decreases 32 - i,
    {
        r[i] = v[i];
        i = i + 1;
    }
    assert(r@ =~= v@);
    r
}

impl Key {
    /// A key of random bytes.
    pub fn random() -> (r: Key) {
        Key(rand::random())
    }

    /// Parses the standard base64 text of exactly 32 bytes.
    pub fn parse(s: &str) -> (r: Result<Key, ParseError>)
        ensures
            match key_of_text(s@) {
                Some(b) => r matches Ok(k) && k@ == b,
                None => r == Err::<Key, ParseError>(ParseError::KeyParseError),
            },
    {
        match decode_standard(s) {
            Some(v) => {
                if v.len() == 32 {
                    let k = Key(key_bytes(&v));
                    assert(standard_b64(k@) == s@);
                    let ghost c = choose|b: Seq<u8>| b.len() == 32 && #[trigger] standard_b64(b) == s@;
                    assert(c == k@);
                    Ok(k)
                } else {
                    proof {
                        if exists|b: Seq<u8>| b.len() == 32 && #[trigger] standard_b64(b) == s@ {
                            let b = choose|b: Seq<u8>| b.len() == 32 && #[trigger] standard_b64(b) == s@;
                            assert(v@ == b);
                        }
                    }
                    Err(ParseError::KeyParseError)
                }
            },
            None => {
                proof {
                    if exists|b: Seq<u8>| b.len() == 32 && #[trigger] standard_b64(b) == s@ {
                        let b = choose|b: Seq<u8>| b.len() == 32 && #[trigger] standard_b64(b) == s@;
                        assert(standard_b64(b) == s@);
                    }
                }
                Err(ParseError::KeyParseError)
            },
        }
    }

    /// The standard base64 text of the key.
    pub fn to_base64(&self) -> (r: String)
        ensures
            r@ == standard_b64(self@),
    {
        encode_standard(self.0.as_slice())
    }
}

impl Default for Key {
    /// The all-zero key, a placeholder that is never a valid identity.
    fn default() -> (r: Key)
        ensures
            r@ == Seq::new(32, |i: int| 0u8),
    {
        let r = Key([0u8; 32]);
        assert(r@ =~= Seq::new(32, |i: int| 0u8));
        r
    }
}


/// An IPv4 or IPv6 address.
#[derive(Debug, Clone, Copy, PartialEq, Eq, Hash)]
pub enum IpAddr {
    V4([u8; 4]),
    V6([u8; 16]),
}

impl View for IpAddr {
    /// The octets: four for IPv4, sixteen for IPv6.
    type V = Seq<u8>;

    open spec fn view(&self) -> Seq<u8> {
        match self {
            IpAddr::V4(a) => a@,
            IpAddr::V6(a) => a@,
        }
    }
}

impl IpAddr {
    /// The longest prefix of the address family: 32 or 128.
    pub open spec fn spec_max_prefix(&self) -> nat {
        match self {
            IpAddr::V4(_) => 32,
            IpAddr::V6(_) => 128,
        }
    }

    pub fn max_prefix(&self) -> (r: u8)
        ensures
            r == self.spec_max_prefix(),
    {
        match self {
            IpAddr::V4(_) => 32,
            IpAddr::V6(_) => 128,
        }
    }
}

/// An IP address and a port.
#[derive(Debug, Clone, Copy, PartialEq, Eq, Hash)]
pub struct SocketAddr {
    pub ip: IpAddr,
    pub port: u16,
}

/// An IP address and a prefix length.
#[derive(Debug, Clone, Copy, PartialEq, Eq, Hash)]
pub struct Cidr {
    pub ip: IpAddr,
    pub mask: u8,
}

impl Default for Cidr {
    /// The unspecified IPv4 address with prefix length 0.
    fn default() -> (r: Cidr)
        ensures
            r.ip@ == seq![0u8, 0u8, 0u8, 0u8],
            r.mask == 0,
    {
        let r = Cidr { ip: IpAddr::V4([0u8; 4]), mask: 0 };
        assert(r.ip@ =~= seq![0u8, 0u8, 0u8, 0u8]);
        r
    }
}

/// Where a peer is reached: a host name with a port, resolved later by the
/// control surface, or a socket address.
#[derive(Debug, Clone, PartialEq, Eq)]
pub enum Endpoint {
    Domain(String),
    Ip(SocketAddr),
}

/// A peer's key and socket address.
#[derive(Debug, Clone, Copy, PartialEq, Eq, Hash)]
pub struct Peer(pub Key, pub SocketAddr);

/// One group of a dotted-quad address: one to three digits, no leading zero,
/// at most 255.
pub open spec fn octet_of(p: Seq<char>) -> Option<u8> {
    if 1 <= p.len() <= 3 && all_digits(p) && !(p.len() > 1 && p[0] == '0') && decimal(p) <= 255 {
        Some(decimal(p) as u8)
    } else {
        None
    }
}

/// The octets of a dotted-quad IPv4 address.
pub open spec fn ipv4_of(s: Seq<char>) -> Option<Seq<u8>> {
    let parts = split(s, '.');
    if parts.len() == 4 && octet_of(parts[0]) is Some && octet_of(parts[1]) is Some && octet_of(
        parts[2],
    ) is Some && octet_of(parts[3]) is Some {
        Some(
            seq![
                octet_of(parts[0])->Some_0,
                octet_of(parts[1])->Some_0,
                octet_of(parts[2])->Some_0,
                octet_of(parts[3])->Some_0,
            ],
        )
    } else {
        None
    }
}

pub open spec fn is_hex(c: char) -> bool {
    ('0' <= c && c <= '9') || ('a' <= c && c <= 'f') || ('A' <= c && c <= 'F')
}

pub open spec fn hex_value(c: char) -> nat {
    if '0' <= c && c <= '9' {
        (c as int - '0' as int) as nat
    } else if 'a' <= c && c <= 'f' {
        (c as int - 'a' as int + 10) as nat
    } else {
        (c as int - 'A' as int + 10) as nat
    }
}

/// The value of hexadecimal digits, most significant first.
pub open spec fn hex_num(s: Seq<char>) -> nat
    decreases s.len(),
{
    if s.len() == 0 {
        0
    } else {
        hex_num(s.drop_last()) * 16 + hex_value(s.last())
    }
}

/// One group of an IPv6 address: one to four hexadecimal digits.
pub open spec fn group_of(p: Seq<char>) -> Option<nat> {
    if 1 <= p.len() <= 4 && forall|i: int| 0 <= i < p.len() ==> is_hex(#[trigger] p[i]) {
        Some(hex_num(p))
    } else {
        None
    }
}

/// The 16-bit groups of colon-separated pieces. Where `v4_tail` holds, the
/// last piece may be a dotted-quad address, which stands for two groups.
pub open spec fn groups_of(ps: Seq<Seq<char>>, v4_tail: bool) -> Option<Seq<nat>>
    decreases ps.len(),
{
    if ps.len() == 0 {
        Some(Seq::empty())
    } else if v4_tail && ps.len() == 1 && ipv4_of(ps[0]) is Some {
        let o = ipv4_of(ps[0])->Some_0;
        Some(seq![o[0] as nat * 256 + o[1] as nat, o[2] as nat * 256 + o[3] as nat])
    } else {
        match group_of(ps[0]) {
            Some(g) => match groups_of(ps.drop_first(), v4_tail) {
                Some(rest) => Some(seq![g] + rest),
                None => None,
            },
            None => None,
        }
    }
}

/// The index of the first `::` in `s`.
pub open spec fn find_double_colon(s: Seq<char>) -> Option<int>
    decreases s.len(),
{
    if s.len() < 2 {
        None
    } else if s[0] == ':' && s[1] == ':' {
        Some(0)
    } else {
        match find_double_colon(s.drop_first()) {
            Some(i) => Some(i + 1),
            None => None,
        }
    }
}

/// The sixteen octets of eight 16-bit groups.
pub open spec fn group_bytes(g: Seq<nat>) -> Seq<u8> {
    Seq::new(
        16,
        |i: int|
            if i % 2 == 0 {
                (g[i / 2] / 256) as u8
            } else {
                (g[i / 2] % 256) as u8
            },
    )
}

/// The octets of an IPv6 address literal: eight groups, or fewer around a
/// single `::` that stands for at least one zero group.
pub open spec fn ipv6_of(s: Seq<char>) -> Option<Seq<u8>> {
    match find_double_colon(s) {
        None => match groups_of(split(s, ':'), true) {
            Some(g) => if g.len() == 8 {
                Some(group_bytes(g))
            } else {
                None
            },
            None => None,
        },
        Some(i) => {
            let head = s.subrange(0, i);
            let tail = s.subrange(i + 2, s.len() as int);
            let hg = if head.len() == 0 {
                Some(Seq::<nat>::empty())
            } else {
                groups_of(split(head, ':'), false)
            };
            let tg = if tail.len() == 0 {
                Some(Seq::<nat>::empty())
            } else {
                groups_of(split(tail, ':'), true)
            };
            match (hg, tg) {
                (Some(h), Some(t)) => if h.len() + t.len() <= 7 {
                    Some(
                        group_bytes(
                            h + Seq::new((8 - h.len() - t.len()) as nat, |j: int| 0nat) + t,
                        ),
                    )
                } else {
                    None
                },
                _ => None,
            }
        },
    }
}

/// The octets of an IP address literal, IPv4 or IPv6.
pub open spec fn ip_of(s: Seq<char>) -> Option<Seq<u8>> {
    match ipv4_of(s) {
        Some(o) => Some(o),
        None => ipv6_of(s),
    }
}

/// A port number: decimal digits only, at most 65535.
pub open spec fn port_of(s: Seq<char>) -> Option<u16> {
    if s.len() > 0 && all_digits(s) && decimal(s) <= 65535 {
        Some(decimal(s) as u16)
    } else {
        None
    }
}

/// The octets and port of a socket address literal: `a.b.c.d:port` or
/// `[v6]:port`.
pub open spec fn socket_addr_of(s: Seq<char>) -> Option<(Seq<u8>, u16)> {
    if s.len() > 0 && s[0] == '[' {
        match find(s, ']') {
            Some(j) => if j + 1 < s.len() && s[j + 1] == ':' {
                match (
                    ipv6_of(s.subrange(1, j)),
                    port_of(s.subrange(j + 2, s.len() as int)),
                ) {
                    (Some(o), Some(p)) => Some((o, p)),
                    _ => None,
                }
            } else {
                None
            },
            None => None,
        }
    } else {
        match find(s, ':') {
            Some(i) => match (
                ipv4_of(s.subrange(0, i)),
                port_of(s.subrange(i + 1, s.len() as int)),
            ) {
                (Some(o), Some(p)) => Some((o, p)),
                _ => None,
            },
            None => None,
        }
    }
}

/// What a CIDR text gives: the octets and prefix length, or the error.
/// The prefix is optional and defaults to the family's full length.
pub open spec fn cidr_of(s: Seq<char>) -> Result<(Seq<u8>, nat), ParseError> {
    let ip_text = match find(s, '/') {
        Some(i) => trim(s.subrange(0, i)),
        None => trim(s),
    };
    let mask_text = match find(s, '/') {
        Some(i) => trim(s.subrange(i + 1, s.len() as int)),
        None => Seq::<char>::empty(),
    };
    if mask_text.len() > 0 && parse_unsigned(mask_text, 128) is None {
        Err(ParseError::ParseIntError)
    } else {
        match ip_of(ip_text) {
            None => Err(ParseError::SocketAddrParseError),
            Some(o) => {
                let max: nat = if o.len() == 4 { 32 } else { 128 };
                let m = if mask_text.len() > 0 { parse_unsigned(mask_text, 128)->Some_0 } else { max };
                if m > max { Err(ParseError::ParseIntError) } else { Ok((o, m)) }
            },
        }
    }
}

/// `e` is what the endpoint text `s` gives: its socket address where it is
/// one, else the text itself as a host name.
pub open spec fn endpoint_is(e: Endpoint, s: Seq<char>) -> bool {
    match socket_addr_of(s) {
        Some((o, p)) => e matches Endpoint::Ip(a) && a.ip@ == o && a.port == p,
        None => e matches Endpoint::Domain(d) && d@ == s,
    }
}

/// `octet_of` on `v[lo..hi]`.
fn parse_octet(v: &Vec<char>, lo: usize, hi: usize) -> (r: Option<u8>)
    requires
        lo <= hi <= v@.len(),
    ensures
        r == octet_of(v@.subrange(lo as int, hi as int)),
{
    let ghost p = v@.subrange(lo as int, hi as int);
    if hi - lo < 1 || hi - lo > 3 || (hi - lo > 1 && v[lo] == '0') || v[lo] == '+' {
        return None;
    }
    let r = parse_uint(v, lo, hi, 255);
    match r {
        Some(n) => Some(n as u8),
        None => None,
    }
}

/// `ipv4_of` on `v[lo..hi]`.
pub fn parse_ipv4(v: &Vec<char>, lo: usize, hi: usize) -> (r: Option<IpAddr>)
    requires
        lo <= hi <= v@.len(),
    ensures
        match ipv4_of(v@.subrange(lo as int, hi as int)) {
            Some(o) => r matches Some(ip) && ip@ == o && ip is V4,
            None => r is None,
        },
{
    let parts = split_ranges(v, lo, hi, '.');
    let ghost sp = split(v@.subrange(lo as int, hi as int), '.');
    if parts.len() != 4 {
        return None;
    }
    let (a0, b0) = parts[0];
    let (a1, b1) = parts[1];
    let (a2, b2) = parts[2];
    let (a3, b3) = parts[3];
    assert(parts@[0] == (a0, b0) && parts@[1] == (a1, b1));
    assert(parts@[2] == (a2, b2) && parts@[3] == (a3, b3));
    let o0 = parse_octet(v, a0, b0);
    let o1 = parse_octet(v, a1, b1);
    let o2 = parse_octet(v, a2, b2);
    let o3 = parse_octet(v, a3, b3);
    match (o0, o1, o2, o3) {
        (Some(x0), Some(x1), Some(x2), Some(x3)) => {
            let ip = IpAddr::V4([x0, x1, x2, x3]);
            assert(ip@ =~= seq![x0, x1, x2, x3]);
            Some(ip)
        },
        _ => None,
    }
}

/// `group_of` on `v[lo..hi]`.
fn parse_group(v: &Vec<char>, lo: usize, hi: usize) -> (r: Option<u16>)
    requires
        lo <= hi <= v@.len(),
    ensures
        match group_of(v@.subrange(lo as int, hi as int)) {
            Some(g) => r == Some(g as u16) && g <= 0xffff,
            None => r is None,
        },
{
    let ghost p = v@.subrange(lo as int, hi as int);
    if hi - lo < 1 || hi - lo > 4 {
        return None;
    }
    let mut acc: u32 = 0;
    let mut i = lo;
    while i < hi
        invariant
            lo < hi <= lo + 4,
            hi <= v@.len(),
            lo <= i <= hi,
            p == v@.subrange(lo as int, hi as int),
            acc as nat == hex_num(p.subrange(0, i - lo)),
            acc < if i - lo == 0 { 1int } else if i - lo == 1 { 16int } else if i - lo == 2 {
                256int
            } else if i - lo == 3 {
                4096int
            } else {
                65536int
            },
            forall|j: int| 0 <= j < i - lo ==> is_hex(#[trigger] p[j]),
        decreases hi - i,
    {
        let c = v[i];
        assert(p[i - lo] == c);
        assert(p.subrange(0, i - lo + 1).drop_last() =~= p.subrange(0, i - lo));
        let d: u32 = if '0' <= c && c <= '9' {
            (c as u32) - ('0' as u32)
        } else if 'a' <= c && c <= 'f' {
            (c as u32) - ('a' as u32) + 10
        } else if 'A' <= c && c <= 'F' {
            (c as u32) - ('A' as u32) + 10
        } else {
            return None;
        };
        acc = acc * 16 + d;
        i = i + 1;
    }
    assert(p.subrange(0, hi - lo) =~= p);
    Some(acc as u16)
}

/// `groups_of` on the colon-separated pieces of `v[lo..hi]`.
fn parse_groups(v: &Vec<char>, lo: usize, hi: usize, v4_tail: bool) -> (r: Option<Vec<u16>>)
    requires
        lo <= hi <= v@.len(),
    ensures
        match groups_of(split(v@.subrange(lo as int, hi as int), ':'), v4_tail) {
            Some(g) => r matches Some(x) && x@.map_values(|n: u16| n as nat) == g,
            None => r is None,
        },
{
    let ghost ps = split(v@.subrange(lo as int, hi as int), ':');
    let parts = split_ranges(v, lo, hi, ':');
    let n = parts.len();
    let mut out: Vec<u16> = Vec::new();
    let mut k: usize = 0;
    assert(ps.subrange(0, ps.len() as int) =~= ps);
    assert(out@.map_values(|n: u16| n as nat) =~= Seq::<nat>::empty());
    proof {
        match groups_of(ps, v4_tail) {
            Some(g) => {
                assert(Seq::<nat>::empty() + g =~= g);
            },
            None => {},
        }
    }
    while k < n
        invariant
            ps == split(v@.subrange(lo as int, hi as int), ':'),
            n == parts@.len(),
            parts@.len() == ps.len(),
            k <= n,
            lo <= hi <= v@.len(),
            forall|j: int|
                0 <= j < parts@.len() ==> {
                    &&& lo <= (#[trigger] parts@[j]).0 <= parts@[j].1 <= hi
                    &&& v@.subrange(parts@[j].0 as int, parts@[j].1 as int) == ps[j]
                },
            groups_of(ps, v4_tail) == match groups_of(ps.subrange(k as int, ps.len() as int), v4_tail) {
                Some(rest) => Some(out@.map_values(|n: u16| n as nat) + rest),
                None => None,
            },
        decreases n - k,
    {
        let (a, b) = parts[k];
        assert(parts@[k as int] == (a, b));
        let ghost tail = ps.subrange(k as int, ps.len() as int);
        assert(tail[0] == ps[k as int]);
        assert(tail.drop_first() =~= ps.subrange(k + 1, ps.len() as int));
        let ghost before = out@.map_values(|n: u16| n as nat);
        if v4_tail && k + 1 == n {
            match parse_ipv4(v, a, b) {
                Some(IpAddr::V4(o)) => {
                    let g0 = (o[0] as u16) * 256 + o[1] as u16;
                    let g1 = (o[2] as u16) * 256 + o[3] as u16;
                    out.push(g0);
                    out.push(g1);
                    assert(out@.map_values(|n: u16| n as nat) =~= before + seq![g0 as nat, g1 as nat]);
                    assert(tail.len() == 1);
                    return Some(out);
                },
                _ => {},
            }
        }
        match parse_group(v, a, b) {
            Some(g) => {
                out.push(g);
                assert(out@.map_values(|n: u16| n as nat) =~= before.push(g as nat));
                proof {
                    match groups_of(ps.subrange(k + 1, ps.len() as int), v4_tail) {
                        Some(rest) => {
                            assert(before + (seq![g as nat] + rest) =~= before.push(g as nat) + rest);
                        },
                        None => {},
                    }
                }
            },
            None => {
                return None;
            },
        }
        k = k + 1;
    }
    assert(ps.subrange(k as int, ps.len() as int) =~= Seq::<Seq<char>>::empty());
    assert(out@.map_values(|n: u16| n as nat) + Seq::<nat>::empty() =~= out@.map_values(
        |n: u16| n as nat,
    ));
    Some(out)
}

/// `find_double_colon` on `v[lo..hi]`, counted from `lo`'s position in `v`.
fn find_double_colon_at(v: &Vec<char>, lo: usize, hi: usize) -> (r: Option<usize>)
    requires
        lo <= hi <= v@.len(),
    ensures
        match find_double_colon(v@.subrange(lo as int, hi as int)) {
            Some(k) => r == Some((lo + k) as usize) && 0 <= k && lo + k + 2 <= hi,
            None => r is None,
        },
{
    let mut i = lo;
    while hi - i > 1
        invariant
            lo <= i <= hi <= v@.len(),
            find_double_colon(v@.subrange(lo as int, hi as int)) == match find_double_colon(
                v@.subrange(i as int, hi as int),
            ) {
                Some(k) => Some(k + (i - lo)),
                None => None::<int>,
            },
        decreases hi - i,
    {
        if v[i] == ':' && v[i + 1] == ':' {
            return Some(i);
        }
        assert(v@.subrange(i as int, hi as int).drop_first() =~= v@.subrange(i + 1, hi as int));
        i = i + 1;
    }
    None
}

/// The octets of eight groups.
fn bytes_of_groups(g: &Vec<u16>) -> (r: [u8; 16])
    requires
        g@.len() == 8,
    ensures
        r@ == group_bytes(g@.map_values(|n: u16| n as nat)),
{
    let mut r = [0u8; 16];
    let mut i: usize = 0;
    while i < 8
        invariant
            i <= 8,
            g@.len() == 8,
            r@.len() == 16,
            forall|j: int| 0 <= j < 2 * i ==> r@[j] == group_bytes(g@.map_values(|n: u16| n as nat))[j],
        decreases 8 - i,
    {
        let x = g[i];
        r[2 * i] = (x / 256) as u8;
        r[2 * i + 1] = (x % 256) as u8;
        assert((2 * i) as int / 2 == i && (2 * i + 1) as int / 2 == i);
        assert((2 * i) as int % 2 == 0 && (2 * i + 1) as int % 2 == 1);
        i = i + 1;
    }
    assert(r@ =~= group_bytes(g@.map_values(|n: u16| n as nat)));
    r
}

/// `ipv6_of` on `v[lo..hi]`.
pub fn parse_ipv6(v: &Vec<char>, lo: usize, hi: usize) -> (r: Option<IpAddr>)
    requires
        lo <= hi <= v@.len(),
    ensures
        match ipv6_of(v@.subrange(lo as int, hi as int)) {
            Some(o) => r matches Some(ip) && ip@ == o && ip is V6,
            None => r is None,
        },
{
    let ghost s = v@.subrange(lo as int, hi as int);
    match find_double_colon_at(v, lo, hi) {
        None => {
            match parse_groups(v, lo, hi, true) {
                Some(g) => if g.len() == 8 {
                    Some(IpAddr::V6(bytes_of_groups(&g)))
                } else {
                    None
                },
                None => None,
            }
        },
        Some(i) => {
            assert(s.subrange(0, i - lo) =~= v@.subrange(lo as int, i as int));
            assert(s.subrange(i - lo + 2, s.len() as int) =~= v@.subrange(i + 2, hi as int));
            let h = if i == lo {
                Vec::new()
            } else {
                match parse_groups(v, lo, i, false) {
                    Some(h) => h,
                    None => {
                        return None;
                    },
                }
            };
            let t = if i + 2 == hi {
                Vec::new()
            } else {
                match parse_groups(v, i + 2, hi, true) {
                    Some(t) => t,
                    None => {
                        return None;
                    },
                }
            };
            assert(h@.len() == 0 ==> h@.map_values(|n: u16| n as nat) =~= Seq::<nat>::empty());
            assert(t@.len() == 0 ==> t@.map_values(|n: u16| n as nat) =~= Seq::<nat>::empty());
            if h.len() > 7 || t.len() > 7 - h.len() {
                return None;
            }
            let ghost hv = h@.map_values(|n: u16| n as nat);
            let ghost tv = t@.map_values(|n: u16| n as nat);
            let zeros = 8 - h.len() - t.len();
            let mut all: Vec<u16> = h;
            let mut z: usize = 0;
            while z < zeros
                invariant
                    z <= zeros,
                    all@.map_values(|n: u16| n as nat) == hv + Seq::new(z as nat, |j: int| 0nat),
                decreases zeros - z,
            {
                let ghost before = all@.map_values(|n: u16| n as nat);
                all.push(0);
                assert(all@.map_values(|n: u16| n as nat) =~= before.push(0nat));
                assert(hv + Seq::new((z + 1) as nat, |j: int| 0nat) =~= (hv + Seq::new(
                    z as nat,
                    |j: int| 0nat,
                )).push(0nat));
                z = z + 1;
            }
            let mut j: usize = 0;
            let ghost mid = all@.map_values(|n: u16| n as nat);
            while j < t.len()
                invariant
                    j <= t@.len(),
                    tv == t@.map_values(|n: u16| n as nat),
                    all@.map_values(|n: u16| n as nat) == mid + tv.subrange(0, j as int),
                decreases t@.len() - j,
            {
                let ghost before = all@.map_values(|n: u16| n as nat);
                all.push(t[j]);
                assert(all@.map_values(|n: u16| n as nat) =~= before.push(t@[j as int] as nat));
                assert(mid + tv.subrange(0, j + 1) =~= (mid + tv.subrange(0, j as int)).push(
                    tv[j as int],
                ));
                j = j + 1;
            }
            assert(tv.subrange(0, j as int) =~= tv);
            Some(IpAddr::V6(bytes_of_groups(&all)))
        },
    }
}

/// `ip_of` on `v[lo..hi]`.
pub fn parse_ip(v: &Vec<char>, lo: usize, hi: usize) -> (r: Option<IpAddr>)
    requires
        lo <= hi <= v@.len(),
    ensures
        match ip_of(v@.subrange(lo as int, hi as int)) {
            Some(o) => r matches Some(ip) && ip@ == o,
            None => r is None,
        },
{
    match parse_ipv4(v, lo, hi) {
        Some(ip) => Some(ip),
        None => parse_ipv6(v, lo, hi),
    }
}

/// `port_of` on `v[lo..hi]`.
fn parse_port(v: &Vec<char>, lo: usize, hi: usize) -> (r: Option<u16>)
    requires
        lo <= hi <= v@.len(),
    ensures
        r == port_of(v@.subrange(lo as int, hi as int)),
{
    if lo < hi && v[lo] == '+' {
        assert(!is_digit(v@.subrange(lo as int, hi as int)[0]));
        return None;
    }
    match parse_uint(v, lo, hi, 65535) {
        Some(n) => Some(n as u16),
        None => None,
    }
}

/// `socket_addr_of` on `v[lo..hi]`.
pub fn parse_socket_addr(v: &Vec<char>, lo: usize, hi: usize) -> (r: Option<SocketAddr>)
    requires
        lo <= hi <= v@.len(),
    ensures
        match socket_addr_of(v@.subrange(lo as int, hi as int)) {
            Some((o, p)) => r matches Some(a) && a.ip@ == o && a.port == p,
            None => r is None,
        },
{
    let ghost s = v@.subrange(lo as int, hi as int);
    if lo < hi && v[lo] == '[' {
        assert(s[0] == '[');
        return match find_char(v, lo, hi, ']') {
            Some(j) => {
                assert(find(s, ']') == Some((j - lo) as int));
                if j + 1 < hi && v[j + 1] == ':' {
                    assert(s[j - lo + 1] == v@[j + 1]);
                    assert(s.subrange(1, j - lo) =~= v@.subrange(lo + 1, j as int));
                    assert(s.subrange(j - lo + 2, s.len() as int) =~= v@.subrange(j + 2, hi as int));
                    let ip = parse_ipv6(v, lo + 1, j);
                    let port = parse_port(v, j + 2, hi);
                    match (ip, port) {
                        (Some(ip), Some(port)) => Some(SocketAddr { ip, port }),
                        _ => None,
                    }
                } else {
                    assert(j + 1 < hi ==> s[j - lo + 1] == v@[j + 1]);
                    None
                }
            },
            None => None,
        };
    }
    match find_char(v, lo, hi, ':') {
        Some(i) => {
            assert(find(s, ':') == Some((i - lo) as int));
            assert(s.subrange(0, i - lo) =~= v@.subrange(lo as int, i as int));
            assert(s.subrange(i - lo + 1, s.len() as int) =~= v@.subrange(i + 1, hi as int));
            let ip = parse_ipv4(v, lo, i);
            let port = parse_port(v, i + 1, hi);
            match (ip, port) {
                (Some(ip), Some(port)) => Some(SocketAddr { ip, port }),
                _ => None,
            }
        },
        None => None,
    }
}

/// `cidr_of` on `v[lo..hi]`.
pub fn parse_cidr(v: &Vec<char>, lo: usize, hi: usize) -> (r: Result<Cidr, ParseError>)
    requires
        lo <= hi <= v@.len(),
    ensures
        match cidr_of(v@.subrange(lo as int, hi as int)) {
            Ok((o, m)) => r matches Ok(c) && c.ip@ == o && c.mask == m,
            Err(e) => r == Err::<Cidr, ParseError>(e),
        },
{
    let ghost s = v@.subrange(lo as int, hi as int);
    let ghost ip_text = match find(s, '/') {
        Some(i) => trim(s.subrange(0, i)),
        None => trim(s),
    };
    let ghost mask_text = match find(s, '/') {
        Some(i) => trim(s.subrange(i + 1, s.len() as int)),
        None => Seq::<char>::empty(),
    };
    let (ip_lo, ip_hi, mask_lo, mask_hi) = match find_char(v, lo, hi, '/') {
        Some(i) => {
            assert(find(s, '/') == Some((i - lo) as int));
            assert(s.subrange(0, i - lo) =~= v@.subrange(lo as int, i as int));
            assert(s.subrange(i - lo + 1, s.len() as int) =~= v@.subrange(i + 1, hi as int));
            let (a, b) = trim_range(v, lo, i);
            let (c, d) = trim_range(v, i + 1, hi);
            (a, b, c, d)
        },
        None => {
            let (a, b) = trim_range(v, lo, hi);
            (a, b, hi, hi)
        },
    };
    assert(v@.subrange(ip_lo as int, ip_hi as int) == ip_text);
    assert(v@.subrange(mask_lo as int, mask_hi as int) =~= mask_text);
    let mask = if mask_lo < mask_hi {
        match parse_uint(v, mask_lo, mask_hi, 128) {
            Some(m) => Some(m as u8),
            None => {
                return Err(ParseError::ParseIntError);
            },
        }
    } else {
        None
    };
    match parse_ip(v, ip_lo, ip_hi) {
        None => Err(ParseError::SocketAddrParseError),
        Some(ip) => {
            let max = ip.max_prefix();
            let m = match mask {
                Some(m) => m,
                None => max,
            };
            if m > max {
                Err(ParseError::ParseIntError)
            } else {
                Ok(Cidr { ip, mask: m })
            }
        },
    }
}

/// The endpoint that `v[lo..hi]` gives, where `v` holds the characters of `s`.
pub fn parse_endpoint(s: &str, v: &Vec<char>, lo: usize, hi: usize) -> (r: Endpoint)
    requires
        v@ == s@,
        lo <= hi <= v@.len(),
    ensures
        endpoint_is(r, v@.subrange(lo as int, hi as int)),
{
    match parse_socket_addr(v, lo, hi) {
        Some(a) => Endpoint::Ip(a),
        None => Endpoint::Domain(substring(s, v, lo, hi)),
    }
}

} // verus!

verus! {

impl View for Cidr {
    /// The octets and the prefix length.
    type V = (Seq<u8>, nat);

    open spec fn view(&self) -> (Seq<u8>, nat) {
        (self.ip@, self.mask as nat)
    }
}

/// What an endpoint is, over plain values.
pub ghost enum EndpointView {
    Domain(Seq<char>),
    Ip(Seq<u8>, u16),
}

impl View for Endpoint {
    type V = EndpointView;

    open spec fn view(&self) -> EndpointView {
        match self {
            Endpoint::Domain(d) => EndpointView::Domain(d@),
            Endpoint::Ip(a) => EndpointView::Ip(a.ip@, a.port),
        }
    }
}

/// The endpoint that the text `s` gives.
pub open spec fn endpoint_of(s: Seq<char>) -> EndpointView {
    match socket_addr_of(s) {
        Some((o, p)) => EndpointView::Ip(o, p),
        None => EndpointView::Domain(s),
    }
}

pub proof fn lemma_endpoint_is(e: Endpoint, s: Seq<char>)
    requires
        endpoint_is(e, s),
    ensures
        e@ == endpoint_of(s),
{
}

} // verus!

verus! {

/// What a peer entry `key address` gives: the key bytes and the socket
/// address, or the error.
pub open spec fn peer_of(s: Seq<char>) -> Result<(Seq<u8>, (Seq<u8>, u16)), ParseError> {
    match find(s, ' ') {
        None => Err(ParseError::PeerParseError),
        Some(i) => match key_of_text(s.subrange(0, i)) {
            None => Err(ParseError::KeyParseError),
            Some(k) => match socket_addr_of(s.subrange(i + 1, s.len() as int)) {
                None => Err(ParseError::SocketAddrParseError),
                Some(a) => Ok((k, a)),
            },
        },
    }
}

impl Peer {
    /// Parses a key and a socket address separated by a space.
    pub fn parse(s: &str) -> (r: Result<Peer, ParseError>)
        ensures
            match peer_of(s@) {
                Ok((k, (o, p))) => r matches Ok(x) && x.0@ == k && x.1.ip@ == o && x.1.port == p,
                Err(e) => r == Err::<Peer, ParseError>(e),
            },
    {
        let v = crate::text::chars_of(s);
        let n = v.len();
        match find_char(&v, 0, n, ' ') {
            None => {
                assert(v@.subrange(0, n as int) =~= s@);
                Err(ParseError::PeerParseError)
            },
            Some(i) => {
                assert(v@.subrange(0, n as int) =~= s@);
                assert(find(s@, ' ') == Some(i as int));
                assert(s@.subrange(0, i as int) =~= v@.subrange(0, i as int));
                let text = substring(s, &v, 0, i);
                let key = Key::parse(text.as_str())?;
                match parse_socket_addr(&v, i + 1, n) {
                    None => Err(ParseError::SocketAddrParseError),
                    Some(a) => Ok(Peer(key, a)),
                }
            },
        }
    }
}

} // verus!

verus! {

/// The state of a running interface and its peers.
#[derive(Debug, Clone, PartialEq, Eq)]
pub struct WgState {
    pub interface: instance::WgInterfaceInfo,
    pub peers: Vec<peer::WgPeerInfo>,
}

} // verus!
