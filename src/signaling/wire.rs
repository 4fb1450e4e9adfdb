//! The binary layout of a peer update.
//!
//! Integers are big-endian. A variable-width unsigned integer takes one byte
//! for values up to 250; otherwise a marker byte (251, 252 or 253) is
//! followed by the value in 2, 4 or 8 bytes. An update is the 32 key bytes,
//! the socket address, the number of routes as a variable-width integer and
//! the routes. An IP address is a family byte (0 for IPv4, 1 for IPv6)
//! followed by its octets; a socket address adds the port as a
//! variable-width integer, a route adds its prefix length as one byte.

use super::{PeerUpdate, UpdateView};
use crate::wg::{Cidr, IpAddr, Key, SocketAddr};
use vstd::prelude::*;

verus! {

pub open spec fn pow256(w: nat) -> nat
    decreases w,
{
    if w == 0 {
        1
    } else {
        256 * pow256((w - 1) as nat)
    }
}

/// `n` in `w` big-endian bytes.
pub open spec fn be_bytes(n: nat, w: nat) -> Seq<u8>
    decreases w,
{
    if w == 0 {
        Seq::empty()
    } else {
        be_bytes(n / 256, (w - 1) as nat).push((n % 256) as u8)
    }
}

/// The value of big-endian bytes.
pub open spec fn be_value(s: Seq<u8>) -> nat
    decreases s.len(),
{
    if s.len() == 0 {
        0
    } else {
        be_value(s.drop_last()) * 256 + s.last() as nat
    }
}

/// The variable-width form of `n`.
pub open spec fn enc_varint(n: nat) -> Seq<u8> {
    if n <= 250 {
        seq![n as u8]
    } else if n <= 0xffff {
        seq![251u8] + be_bytes(n, 2)
    } else if n <= 0xffff_ffff {
        seq![252u8] + be_bytes(n, 4)
    } else {
        seq![253u8] + be_bytes(n, 8)
    }
}

pub open spec fn enc_ip(o: Seq<u8>) -> Seq<u8> {
    seq![if o.len() == 4 { 0u8 } else { 1u8 }] + o
}

pub open spec fn enc_cidr(c: (Seq<u8>, nat)) -> Seq<u8> {
    enc_ip(c.0) + seq![c.1 as u8]
}

pub open spec fn enc_routes(rs: Seq<(Seq<u8>, nat)>) -> Seq<u8>
    decreases rs.len(),
{
    if rs.len() == 0 {
        Seq::empty()
    } else {
        enc_cidr(rs[0]) + enc_routes(rs.drop_first())
    }
}

/// The bytes of an update.
pub open spec fn enc_update(u: UpdateView) -> Seq<u8> {
    u.key + enc_ip(u.endpoint.0) + enc_varint(u.endpoint.1 as nat) + enc_varint(u.routes.len())
        + enc_routes(u.routes)
}

/// A variable-width integer at `i`, no larger than `max`, and where it ends.
pub open spec fn dec_varint(b: Seq<u8>, i: int, max: nat) -> Option<(nat, int)> {
    if i < 0 || i >= b.len() {
        None
    } else {
        let (n, end) = if b[i] <= 250 {
            (b[i] as nat, i + 1)
        } else if b[i] == 251 {
            (be_value(b.subrange(i + 1, i + 3)), i + 3)
        } else if b[i] == 252 {
            (be_value(b.subrange(i + 1, i + 5)), i + 5)
        } else if b[i] == 253 {
            (be_value(b.subrange(i + 1, i + 9)), i + 9)
        } else {
            (0, -1)
        };
        if end <= b.len() && i < end && n <= max { Some((n, end)) } else { None }
    }
}

/// An IP address at `i`, and where it ends.
pub open spec fn dec_ip(b: Seq<u8>, i: int) -> Option<(Seq<u8>, int)> {
    if 0 <= i < b.len() && b[i] == 0 && i + 5 <= b.len() {
        Some((b.subrange(i + 1, i + 5), i + 5))
    } else if 0 <= i < b.len() && b[i] == 1 && i + 17 <= b.len() {
        Some((b.subrange(i + 1, i + 17), i + 17))
    } else {
        None
    }
}

/// A route at `i`, and where it ends.
pub open spec fn dec_cidr(b: Seq<u8>, i: int) -> Option<((Seq<u8>, nat), int)> {
    match dec_ip(b, i) {
        Some((o, j)) => if j < b.len() {
            Some(((o, b[j] as nat), j + 1))
        } else {
            None
        },
        None => None,
    }
}

/// `n` routes from `i`, and where they end.
pub open spec fn dec_routes(b: Seq<u8>, i: int, n: nat) -> Option<(Seq<(Seq<u8>, nat)>, int)>
    decreases n,
{
    if n == 0 {
        Some((Seq::empty(), i))
    } else {
        match dec_cidr(b, i) {
            Some((c, j)) => match dec_routes(b, j, (n - 1) as nat) {
                Some((rest, k)) => Some((seq![c] + rest, k)),
                None => None,
            },
            None => None,
        }
    }
}

/// The update that the bytes hold, all of them used.
pub open spec fn dec_update(b: Seq<u8>) -> Option<UpdateView> {
    if b.len() < 32 {
        None
    } else {
        match dec_ip(b, 32) {
            None => None,
            Some((o, i)) => match dec_varint(b, i, 0xffff) {
                None => None,
                Some((port, j)) => match dec_varint(b, j, 0xffff_ffff_ffff_ffff) {
                    None => None,
                    Some((n, k)) => match dec_routes(b, k, n) {
                        Some((rs, end)) => if end == b.len() {
                            Some(
                                UpdateView {
                                    key: b.subrange(0, 32),
                                    endpoint: (o, port as u16),
                                    routes: rs,
                                },
                            )
                        } else {
                            None
                        },
                        None => None,
                    },
                },
            },
        }
    }
}

} // verus!

verus! {

/// The bytes of `b` from `i` on begin with `e`.
pub open spec fn holds_at(b: Seq<u8>, i: int, e: Seq<u8>) -> bool {
    0 <= i && i + e.len() <= b.len() && b.subrange(i, i + e.len()) == e
}

/// A route that the wire format can carry.
pub open spec fn route_wf(c: (Seq<u8>, nat)) -> bool {
    (c.0.len() == 4 || c.0.len() == 16) && c.1 < 256
}

/// An update that the wire format can carry: the values that a
/// `PeerUpdate` holds.
pub open spec fn update_wf(u: UpdateView) -> bool {
    &&& u.key.len() == 32
    &&& (u.endpoint.0.len() == 4 || u.endpoint.0.len() == 16)
    &&& forall|k: int| 0 <= k < u.routes.len() ==> route_wf(#[trigger] u.routes[k])
    &&& u.routes.len() <= 0xffff_ffff_ffff_ffff
}

proof fn lemma_pow256_values()
    ensures
        pow256(2) == 0x1_0000,
        pow256(4) == 0x1_0000_0000,
        pow256(7) == 0x100_0000_0000_0000,
        pow256(8) == 0x1_0000_0000_0000_0000,
{
    reveal_with_fuel(pow256, 9);
}

proof fn lemma_be_value_push(s: Seq<u8>, x: u8)
    ensures
        be_value(s.push(x)) == be_value(s) * 256 + x as nat,
{
    assert(s.push(x).drop_last() =~= s);
}

proof fn lemma_be_round_trip(n: nat, w: nat)
    requires
        n < pow256(w),
    ensures
        be_bytes(n, w).len() == w,
        be_value(be_bytes(n, w)) == n,
    decreases w,
{
    if w > 0 {
        let w1 = (w - 1) as nat;
        assert(n / 256 < pow256(w1)) by (nonlinear_arith)
            requires
                n < 256 * pow256(w1),
        {
        }
        lemma_be_round_trip(n / 256, w1);
        lemma_be_value_push(be_bytes(n / 256, w1), (n % 256) as u8);
        assert(n == (n / 256) * 256 + n % 256) by (nonlinear_arith);
    } else {
        assert(n == 0);
    }
}

proof fn lemma_be_value_bound(s: Seq<u8>)
    ensures
        be_value(s) < pow256(s.len()),
    decreases s.len(),
{
    if s.len() > 0 {
        lemma_be_value_bound(s.drop_last());
        let v = be_value(s.drop_last());
        let p = pow256((s.len() - 1) as nat);
        assert(v * 256 + (s.last() as nat) < 256 * p) by (nonlinear_arith)
            requires
                v < p,
                s.last() < 256,
        {
        }
    }
}

proof fn lemma_holds_at_concat(b: Seq<u8>, i: int, x: Seq<u8>, y: Seq<u8>)
    requires
        holds_at(b, i, x + y),
    ensures
        holds_at(b, i, x),
        holds_at(b, i + x.len(), y),
{
    assert(b.subrange(i, i + x.len()) =~= (x + y).subrange(0, x.len() as int));
    assert(b.subrange(i + x.len(), i + x.len() + y.len()) =~= (x + y).subrange(
        x.len() as int,
        (x + y).len() as int,
    ));
    assert((x + y).subrange(0, x.len() as int) =~= x);
    assert((x + y).subrange(x.len() as int, (x + y).len() as int) =~= y);
}

proof fn lemma_dec_varint(b: Seq<u8>, i: int, n: nat, max: nat)
    requires
        holds_at(b, i, enc_varint(n)),
        n <= max,
        n < 0x1_0000_0000_0000_0000,
    ensures
        dec_varint(b, i, max) == Some((n, i + enc_varint(n).len())),
{
    lemma_pow256_values();
    let e = enc_varint(n);
    assert(b[i] == b.subrange(i, i + e.len())[0]);
    if n <= 250 {
    } else {
        let w: nat = if n <= 0xffff { 2 } else if n <= 0xffff_ffff { 4 } else { 8 };
        let tag: u8 = if n <= 0xffff { 251 } else if n <= 0xffff_ffff { 252 } else { 253 };
        assert(e == seq![tag] + be_bytes(n, w));
        lemma_be_round_trip(n, w);
        lemma_holds_at_concat(b, i, seq![tag], be_bytes(n, w));
    }
}

proof fn lemma_dec_ip(b: Seq<u8>, i: int, o: Seq<u8>)
    requires
        holds_at(b, i, enc_ip(o)),
        o.len() == 4 || o.len() == 16,
    ensures
        dec_ip(b, i) == Some((o, i + enc_ip(o).len())),
{
    let tag: u8 = if o.len() == 4 { 0 } else { 1 };
    lemma_holds_at_concat(b, i, seq![tag], o);
    assert(b[i] == b.subrange(i, i + 1)[0]);
}

proof fn lemma_dec_routes(b: Seq<u8>, i: int, rs: Seq<(Seq<u8>, nat)>)
    requires
        holds_at(b, i, enc_routes(rs)),
        forall|k: int| 0 <= k < rs.len() ==> route_wf(#[trigger] rs[k]),
    ensures
        dec_routes(b, i, rs.len()) == Some((rs, i + enc_routes(rs).len())),
    decreases rs.len(),
{
    if rs.len() == 0 {
        assert(rs =~= Seq::<(Seq<u8>, nat)>::empty());
    } else {
        let c = rs[0];
        assert(route_wf(rs[0]));
        lemma_holds_at_concat(b, i, enc_cidr(c), enc_routes(rs.drop_first()));
        lemma_holds_at_concat(b, i, enc_ip(c.0), seq![c.1 as u8]);
        lemma_dec_ip(b, i, c.0);
        let j = i + enc_ip(c.0).len();
        assert(b[j] == b.subrange(j, j + 1)[0]);
        assert(dec_cidr(b, i) == Some((c, j + 1)));
        assert forall|k: int| 0 <= k < rs.drop_first().len() implies route_wf(
            #[trigger] rs.drop_first()[k],
        ) by {
            assert(rs.drop_first()[k] == rs[k + 1]);
        }
        lemma_dec_routes(b, j + 1, rs.drop_first());
        assert(seq![c] + rs.drop_first() =~= rs);
    }
}

/// Decoding the bytes of an update gives the update back.
pub proof fn lemma_wire_round_trip(u: UpdateView)
    requires
        update_wf(u),
    ensures
        dec_update(enc_update(u)) == Some(u),
{
    let b = enc_update(u);
    let e_ip = enc_ip(u.endpoint.0);
    let e_port = enc_varint(u.endpoint.1 as nat);
    let e_len = enc_varint(u.routes.len());
    let e_routes = enc_routes(u.routes);
    assert(b == u.key + e_ip + e_port + e_len + e_routes);
    assert(holds_at(b, 0, b)) by {
        assert(b.subrange(0, b.len() as int) =~= b);
    }
    lemma_holds_at_concat(b, 0, u.key + e_ip + e_port + e_len, e_routes);
    lemma_holds_at_concat(b, 0, u.key + e_ip + e_port, e_len);
    lemma_holds_at_concat(b, 0, u.key + e_ip, e_port);
    lemma_holds_at_concat(b, 0, u.key, e_ip);
    let i: int = 32 + e_ip.len() as int;
    let j: int = i + e_port.len() as int;
    let k: int = j + e_len.len() as int;
    lemma_dec_ip(b, 32, u.endpoint.0);
    lemma_dec_varint(b, i, u.endpoint.1 as nat, 0xffff);
    lemma_dec_varint(b, j, u.routes.len(), 0xffff_ffff_ffff_ffff);
    lemma_dec_routes(b, k, u.routes);
    assert(b.subrange(0, 32) =~= u.key);
}

} // verus!

verus! {

/// Appends `n` in `w` big-endian bytes.
fn push_be(out: &mut Vec<u8>, n: u64, w: usize)
    requires
        w <= 8,
        n < pow256(w as nat),
    ensures
        final(out)@ == old(out)@ + be_bytes(n as nat, w as nat),
    decreases w,
{
    if w > 0 {
        assert(n / 256 < pow256((w - 1) as nat)) by (nonlinear_arith)
            requires
                n < 256 * pow256((w - 1) as nat),
        {
        }
        push_be(out, n / 256, w - 1);
        out.push((n % 256) as u8);
    } else {
        assert(old(out)@ + Seq::<u8>::empty() =~= old(out)@);
    }
}

/// Appends the variable-width form of `n`.
fn push_varint(out: &mut Vec<u8>, n: u64)
    ensures
        final(out)@ == old(out)@ + enc_varint(n as nat),
{
    proof {
        lemma_pow256_values();
    }
    if n <= 250 {
        out.push(n as u8);
    } else if n <= 0xffff {
        out.push(251);
        push_be(out, n, 2);
    } else if n <= 0xffff_ffff {
        out.push(252);
        push_be(out, n, 4);
    } else {
        out.push(253);
        push_be(out, n, 8);
    }
    assert(final(out)@ =~= old(out)@ + enc_varint(n as nat));
}

/// Appends the bytes of `b`.
fn push_all(out: &mut Vec<u8>, b: &[u8])
    ensures
        final(out)@ == old(out)@ + b@,
{
    let mut i: usize = 0;
    while i < b.len()
        invariant
            i <= b@.len(),
            out@ == old(out)@ + b@.subrange(0, i as int),
        decreases b@.len() - i,
    {
        out.push(b[i]);
        i = i + 1;
        assert(out@ =~= old(out)@ + b@.subrange(0, i as int));
    }
    assert(b@.subrange(0, i as int) =~= b@);
}

fn push_ip(out: &mut Vec<u8>, ip: &IpAddr)
    ensures
        final(out)@ == old(out)@ + enc_ip(ip@),
{
    match ip {
        IpAddr::V4(a) => {
            out.push(0);
            push_all(out, a.as_slice());
        },
        IpAddr::V6(a) => {
            out.push(1);
            push_all(out, a.as_slice());
        },
    }
    assert(final(out)@ =~= old(out)@ + enc_ip(ip@));
}

proof fn lemma_enc_routes_push(rs: Seq<(Seq<u8>, nat)>, c: (Seq<u8>, nat))
    ensures
        enc_routes(rs.push(c)) == enc_routes(rs) + enc_cidr(c),
    decreases rs.len(),
{
    if rs.len() == 0 {
        assert(rs.push(c).drop_first() =~= Seq::<(Seq<u8>, nat)>::empty());
        assert(rs.push(c)[0] == c);
        assert(enc_routes(Seq::<(Seq<u8>, nat)>::empty()) == Seq::<u8>::empty());
        assert(enc_routes(rs) == Seq::<u8>::empty());
        assert(enc_routes(rs.push(c)) =~= enc_cidr(c) + Seq::<u8>::empty());
    } else {
        lemma_enc_routes_push(rs.drop_first(), c);
        assert(rs.push(c).drop_first() =~= rs.drop_first().push(c));
        assert(rs.push(c)[0] == rs[0]);
        assert(enc_routes(rs.push(c)) =~= enc_routes(rs) + enc_cidr(c));
    }
}

/// The bytes of an update.
pub fn encode_update(u: &PeerUpdate) -> (r: Vec<u8>)
    ensures
        r@ == enc_update(u@),
        update_wf(u@),
{
    assert forall|k: int| 0 <= k < u@.routes.len() implies route_wf(#[trigger] u@.routes[k]) by {
        let c = u.advertise_routes@[k];
        assert(u@.routes[k] == c@);
    }
    let mut out: Vec<u8> = Vec::new();
    push_all(&mut out, u.key.0.as_slice());
    push_ip(&mut out, &u.endpoint.ip);
    push_varint(&mut out, u.endpoint.port as u64);
    let n = u.advertise_routes.len();
    push_varint(&mut out, n as u64);
    let ghost head = out@;
    let mut k: usize = 0;
    while k < n
        invariant
            n == u.advertise_routes@.len(),
            k <= n,
            out@ == head + enc_routes(
                u.advertise_routes@.subrange(0, k as int).map_values(|c: Cidr| c@),
            ),
        decreases n - k,
    {
        let c = u.advertise_routes[k];
        push_ip(&mut out, &c.ip);
        out.push(c.mask);
        proof {
            let prev = u.advertise_routes@.subrange(0, k as int).map_values(|c: Cidr| c@);
            assert(u.advertise_routes@.subrange(0, k + 1).map_values(|c: Cidr| c@) =~= prev.push(
                c@,
            ));
            lemma_enc_routes_push(prev, c@);
        }
        k = k + 1;
        assert(out@ =~= head + enc_routes(
            u.advertise_routes@.subrange(0, k as int).map_values(|c: Cidr| c@),
        ));
    }
    assert(u.advertise_routes@.subrange(0, n as int) =~= u.advertise_routes@);
    assert(out@ =~= enc_update(u@));
    out
}

/// The value of the `w` big-endian bytes of `b` from `i`.
fn read_be(b: &Vec<u8>, i: usize, w: usize) -> (r: u64)
    requires
        w <= 8,
        i + w <= b@.len(),
    ensures
        r == be_value(b@.subrange(i as int, i + w)),
{
    let n = b.len();
    let mut acc: u64 = 0;
    let mut j: usize = 0;
    while j < w
        invariant
            n == b@.len(),
            w <= 8,
            j <= w,
            i + w <= b@.len(),
            acc == be_value(b@.subrange(i as int, i + j)),
        decreases w - j,
    {
        proof {
            lemma_be_value_bound(b@.subrange(i as int, i + j));
            lemma_pow256_values();
            assert(pow256(j as nat) <= pow256(7)) by {
                lemma_pow256_mono(j as nat, 7);
            }
            assert(b@.subrange(i as int, i + j + 1).drop_last() =~= b@.subrange(i as int, i + j));
        }
        let byte = b[i + j] as u64;
        assert(acc * 256 + byte < 0x1_0000_0000_0000_0000) by (nonlinear_arith)
            requires
                acc < 0x100_0000_0000_0000,
                byte < 256,
        {
        }
        acc = acc * 256 + byte;
        j = j + 1;
    }
    acc
}

proof fn lemma_pow256_mono(a: nat, b: nat)
    requires
        a <= b,
    ensures
        pow256(a) <= pow256(b),
    decreases b,
{
    if a < b {
        lemma_pow256_mono(a, (b - 1) as nat);
    }
}

} // verus!

verus! {

/// `dec_varint` at `i`.
fn read_varint(b: &Vec<u8>, i: usize, max: u64) -> (r: Option<(u64, usize)>)
    ensures
        match dec_varint(b@, i as int, max as nat) {
            Some((n, end)) => r == Some((n as u64, end as usize)),
            None => r is None,
        },
{
    let len = b.len();
    if i >= len {
        return None;
    }
    let t = b[i];
    let (n, w): (u64, usize) = if t <= 250 {
        (t as u64, 0)
    } else {
        let w: usize = if t == 251 {
            2
        } else if t == 252 {
            4
        } else if t == 253 {
            8
        } else {
            return None;
        };
        if len - i - 1 < w {
            return None;
        }
        (read_be(b, i + 1, w), w)
    };
    if n <= max {
        Some((n, i + 1 + w))
    } else {
        None
    }
}

/// Copies `N` bytes of `b` from `i` into an array.
fn take_bytes<const N: usize>(b: &Vec<u8>, i: usize) -> (r: [u8; N])
    requires
        i + N <= b@.len(),
    ensures
        r@ == b@.subrange(i as int, i + N),
{
    let len = b.len();
    let mut r = [0u8; N];
    let mut j: usize = 0;
    while j < N
        invariant
            len == b@.len(),
            j <= N,
            i + N <= b@.len(),
            r@.len() == N,
            forall|k: int| 0 <= k < j ==> r@[k] == b@[i + k],
        decreases N - j,
    {
        r[j] = b[i + j];
        j = j + 1;
    }
    assert(r@ =~= b@.subrange(i as int, i + N));
    r
}

/// `dec_ip` at `i`.
fn read_ip(b: &Vec<u8>, i: usize) -> (r: Option<(IpAddr, usize)>)
    ensures
        match dec_ip(b@, i as int) {
            Some((o, end)) => r matches Some((ip, e)) && ip@ == o && e == end,
            None => r is None,
        },
{
    let len = b.len();
    if i >= len {
        return None;
    }
    if b[i] == 0 && len - i >= 5 {
        let a: [u8; 4] = take_bytes(b, i + 1);
        Some((IpAddr::V4(a), i + 5))
    } else if b[i] == 1 && len - i >= 17 {
        let a: [u8; 16] = take_bytes(b, i + 1);
        Some((IpAddr::V6(a), i + 17))
    } else {
        None
    }
}

/// `dec_cidr` at `i`.
fn read_cidr(b: &Vec<u8>, i: usize) -> (r: Option<(Cidr, usize)>)
    ensures
        match dec_cidr(b@, i as int) {
            Some((c, end)) => r matches Some((x, e)) && x@ == c && e == end,
            None => r is None,
        },
{
    match read_ip(b, i) {
        Some((ip, j)) => if j < b.len() {
            Some((Cidr { ip, mask: b[j] }, j + 1))
        } else {
            None
        },
        None => None,
    }
}

/// The update that the bytes hold.
pub fn decode_update(b: &Vec<u8>) -> (r: Option<PeerUpdate>)
    ensures
        match dec_update(b@) {
            Some(u) => r matches Some(x) && x@ == u,
            None => r is None,
        },
{
    if b.len() < 32 {
        return None;
    }
    let key = Key(take_bytes(b, 0));
    let (ip, i) = match read_ip(b, 32) {
        Some(x) => x,
        None => {
            return None;
        },
    };
    let (port, j) = match read_varint(b, i, 0xffff) {
        Some(x) => x,
        None => {
            return None;
        },
    };
    let (n, k) = match read_varint(b, j, 0xffff_ffff_ffff_ffff) {
        Some(x) => x,
        None => {
            return None;
        },
    };
    let ghost start = k as int;
    let ghost whole = match dec_routes(b@, start, n as nat) {
        Some((rs, end)) => if end == b@.len() {
            Some(UpdateView { key: b@.subrange(0, 32), endpoint: (ip@, port as u16), routes: rs })
        } else {
            None
        },
        None => None,
    };
    assert(dec_update(b@) == whole);
    let mut routes: Vec<Cidr> = Vec::new();
    let mut pos = k;
    let mut m: u64 = 0;
    assert(routes@.map_values(|c: Cidr| c@) =~= Seq::<(Seq<u8>, nat)>::empty());
    proof {
        match dec_routes(b@, start, n as nat) {
            Some((rest, e)) => {
                assert(Seq::<(Seq<u8>, nat)>::empty() + rest =~= rest);
            },
            None => {},
        }
    }
    while m < n
        invariant
            m <= n,
            dec_update(b@) == whole,
            whole == match dec_routes(b@, start, n as nat) {
                Some((rs, end)) => if end == b@.len() {
                    Some(UpdateView { key: b@.subrange(0, 32), endpoint: (ip@, port as u16), routes: rs })
                } else {
                    None
                },
                None => None,
            },
            dec_routes(b@, start, n as nat) == match dec_routes(b@, pos as int, (n - m) as nat) {
                Some((rest, e)) => Some((routes@.map_values(|c: Cidr| c@) + rest, e)),
                None => None,
            },
        decreases n - m,
    {
        match read_cidr(b, pos) {
            Some((c, next)) => {
                let ghost before = routes@.map_values(|c: Cidr| c@);
                routes.push(c);
                assert(routes@.map_values(|c: Cidr| c@) =~= before.push(c@));
                proof {
                    match dec_routes(b@, next as int, (n - m - 1) as nat) {
                        Some((rest, e)) => {
                            assert(before + (seq![c@] + rest) =~= before.push(c@) + rest);
                        },
                        None => {},
                    }
                }
                pos = next;
            },
            None => {
                return None;
            },
        }
        m = m + 1;
    }
    assert(routes@.map_values(|c: Cidr| c@) + Seq::<(Seq<u8>, nat)>::empty() =~= routes@.map_values(
        |c: Cidr| c@,
    ));
    if pos != b.len() {
        return None;
    }
    let u = PeerUpdate {
        key,
        endpoint: SocketAddr { ip, port: port as u16 },
        advertise_routes: routes,
    };
    Some(u)
}

} // verus!
