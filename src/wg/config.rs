//! The interface configuration file: `[Interface]` and `[Peer]` sections of
//! `Key = Value` lines.
//!
//! The text is read line by line. Before the first section header, lines are
//! skipped. A header line starts with `[Interface]` or `[Peer]`; what follows
//! the marker on that line is ignored. Inside a section, blank lines are
//! skipped, another bracketed header is an error, and every other line must
//! hold `=`: the trimmed text before it names a field and the trimmed text
//! after it is that field's value. Names are matched case-sensitively; a name
//! that the section does not know is skipped. Exactly one `[Interface]`
//! section is required.

use super::{
    Cidr, Endpoint, EndpointView, IpAddr, Key, cidr_of, endpoint_of, ip_of, key_of_text,
    lemma_endpoint_is, parse_cidr, parse_endpoint, parse_ip,
};
use crate::text::{
    chars_of, find, find_char, parse_uint, parse_unsigned, split, split_ranges, starts_with,
    starts_with_at, substring, trim, trim_range,
};
use vstd::prelude::*;

verus! {

/// Why a configuration text was rejected.
#[derive(Debug, Clone, Copy, PartialEq, Eq, Structural)]
pub enum ParseError {
    /// A bracketed header that is neither `[Interface]` nor `[Peer]`, or a
    /// second `[Interface]` section.
    UnexpectedToken,
    /// A key that is not the base64 text of exactly 32 bytes.
    KeyParseError,
    /// An IP address or socket address that does not parse.
    SocketAddrParseError,
    /// A line of a section without the given separator.
    Expected(char),
    /// An integer that does not parse or does not fit.
    ParseIntError,
    /// The text has no `[Interface]` section.
    NoInterfaceSection,
    /// A peer entry that is not a key and an address separated by a space.
    PeerParseError,
}

/// A parsed configuration: the interface and its peers in source order.
#[derive(Debug, Clone, PartialEq, Eq)]
pub struct WgConfig {
    pub interface: WgConfigInterface,
    pub peers: Vec<WgConfigPeer>,
}

/// The `[Interface]` section.
#[derive(Debug, Clone, PartialEq, Eq)]
pub struct WgConfigInterface {
    /// `PrivateKey`
    pub private_key: Key,
    /// `Address`
    pub address: Cidr,
    /// `ListenPort`
    pub listen_port: Option<u16>,
    /// `MTU`
    pub mtu: Option<u16>,
    /// `DNS`
    pub dns: Option<Vec<IpAddr>>,
    /// `Table`
    pub table: Option<u32>,
    /// `Fwmark`
    pub fwmark: Option<u32>,
    /// `AdvertiseRoutes`
    pub advertise_routes: Option<Vec<Cidr>>,
    /// `PreUp`
    pub pre_up: Option<String>,
    /// `PreDown`
    pub pre_down: Option<String>,
    /// `PostUp`
    pub post_up: Option<String>,
    /// `PostDown`
    pub post_down: Option<String>,
    /// `SaveConfig`
    pub save_config: Option<bool>,
}

/// A `[Peer]` section.
#[derive(Debug, Clone, PartialEq, Eq)]
pub struct WgConfigPeer {
    /// `PublicKey`
    pub public_key: Key,
    /// `PresharedKey`
    pub preshared_key: Option<Key>,
    /// `Endpoint`
    pub endpoint: Option<Endpoint>,
    /// `AllowedIPs`
    pub allowed_ips: Option<Vec<Cidr>>,
    /// `PersistentKeepalive`
    pub persistent_keepalive: Option<u32>,
}

pub open spec fn opt_text(s: Option<String>) -> Option<Seq<char>> {
    match s {
        Some(t) => Some(t@),
        None => None,
    }
}

pub open spec fn opt_cidrs(s: Option<Vec<Cidr>>) -> Option<Seq<(Seq<u8>, nat)>> {
    match s {
        Some(l) => Some(l@.map_values(|c: Cidr| c@)),
        None => None,
    }
}

pub open spec fn opt_ips(s: Option<Vec<IpAddr>>) -> Option<Seq<Seq<u8>>> {
    match s {
        Some(l) => Some(l@.map_values(|a: IpAddr| a@)),
        None => None,
    }
}

/// The `[Interface]` section over plain values.
pub ghost struct InterfaceView {
    pub private_key: Seq<u8>,
    pub address: (Seq<u8>, nat),
    pub listen_port: Option<nat>,
    pub mtu: Option<nat>,
    pub dns: Option<Seq<Seq<u8>>>,
    pub table: Option<nat>,
    pub fwmark: Option<nat>,
    pub advertise_routes: Option<Seq<(Seq<u8>, nat)>>,
    pub pre_up: Option<Seq<char>>,
    pub pre_down: Option<Seq<char>>,
    pub post_up: Option<Seq<char>>,
    pub post_down: Option<Seq<char>>,
    pub save_config: Option<bool>,
}

/// A `[Peer]` section over plain values.
pub ghost struct PeerView {
    pub public_key: Seq<u8>,
    pub preshared_key: Option<Seq<u8>>,
    pub endpoint: Option<EndpointView>,
    pub allowed_ips: Option<Seq<(Seq<u8>, nat)>>,
    pub persistent_keepalive: Option<nat>,
}

impl View for WgConfigInterface {
    type V = InterfaceView;

    open spec fn view(&self) -> InterfaceView {
        InterfaceView {
            private_key: self.private_key@,
            address: self.address@,
            listen_port: match self.listen_port {
                Some(n) => Some(n as nat),
                None => None,
            },
            mtu: match self.mtu {
                Some(n) => Some(n as nat),
                None => None,
            },
            dns: opt_ips(self.dns),
            table: match self.table {
                Some(n) => Some(n as nat),
                None => None,
            },
            fwmark: match self.fwmark {
                Some(n) => Some(n as nat),
                None => None,
            },
            advertise_routes: opt_cidrs(self.advertise_routes),
            pre_up: opt_text(self.pre_up),
            pre_down: opt_text(self.pre_down),
            post_up: opt_text(self.post_up),
            post_down: opt_text(self.post_down),
            save_config: self.save_config,
        }
    }
}

impl View for WgConfigPeer {
    type V = PeerView;

    open spec fn view(&self) -> PeerView {
        PeerView {
            public_key: self.public_key@,
            preshared_key: match self.preshared_key {
                Some(k) => Some(k@),
                None => None,
            },
            endpoint: match self.endpoint {
                Some(e) => Some(e@),
                None => None,
            },
            allowed_ips: opt_cidrs(self.allowed_ips),
            persistent_keepalive: match self.persistent_keepalive {
                Some(n) => Some(n as nat),
                None => None,
            },
        }
    }
}

/// The field that a name on the left of `=` stands for.
#[derive(Debug, Clone, Copy, PartialEq, Eq, Structural)]
pub enum WgPropKind {
    PublicKey,
    PresharedKey,
    Endpoint,
    AdvertiseRoutes,
    AllowedIPs,
    PersistentKeepalive,
    Unknown,
    PrivateKey,
    Address,
    ListenPort,
    PostUp,
    PostDown,
    PreUp,
    PreDown,
    FWMark,
    Table,
    MTU,
    DNS,
    SaveConfig,
}

/// The field named by `s`.
pub open spec fn prop_kind_of(s: Seq<char>) -> WgPropKind {
    if s == "PublicKey"@ {
        WgPropKind::PublicKey
    } else if s == "PresharedKey"@ {
        WgPropKind::PresharedKey
    } else if s == "Endpoint"@ {
        WgPropKind::Endpoint
    } else if s == "AllowedIPs"@ {
        WgPropKind::AllowedIPs
    } else if s == "PersistentKeepalive"@ {
        WgPropKind::PersistentKeepalive
    } else if s == "PrivateKey"@ {
        WgPropKind::PrivateKey
    } else if s == "ListenPort"@ {
        WgPropKind::ListenPort
    } else if s == "PostUp"@ {
        WgPropKind::PostUp
    } else if s == "PostDown"@ {
        WgPropKind::PostDown
    } else if s == "PreUp"@ {
        WgPropKind::PreUp
    } else if s == "PreDown"@ {
        WgPropKind::PreDown
    } else if s == "Fwmark"@ {
        WgPropKind::FWMark
    } else if s == "DNS"@ {
        WgPropKind::DNS
    } else if s == "MTU"@ {
        WgPropKind::MTU
    } else if s == "Address"@ {
        WgPropKind::Address
    } else if s == "Table"@ {
        WgPropKind::Table
    } else if s == "AdvertiseRoutes"@ {
        WgPropKind::AdvertiseRoutes
    } else if s == "SaveConfig"@ {
        WgPropKind::SaveConfig
    } else {
        WgPropKind::Unknown
    }
}

/// `v[lo..hi]` is the text `p`.
fn is_text(v: &Vec<char>, lo: usize, hi: usize, p: &str) -> (r: bool)
    requires
        lo <= hi <= v@.len(),
    ensures
        r == (v@.subrange(lo as int, hi as int) == p@),
{
    let n = p.unicode_len();
    if n != hi - lo {
        return false;
    }
    let r = starts_with_at(v, lo, hi, p);
    assert(v@.subrange(lo as int, hi as int).subrange(0, n as int) =~= v@.subrange(
        lo as int,
        hi as int,
    ));
    r
}

impl WgPropKind {
    /// The field named by `v[lo..hi]`.
    pub fn from_chars(v: &Vec<char>, lo: usize, hi: usize) -> (r: WgPropKind)
        requires
            lo <= hi <= v@.len(),
        ensures
            r == prop_kind_of(v@.subrange(lo as int, hi as int)),
    {
        if is_text(v, lo, hi, "PublicKey") {
            WgPropKind::PublicKey
        } else if is_text(v, lo, hi, "PresharedKey") {
            WgPropKind::PresharedKey
        } else if is_text(v, lo, hi, "Endpoint") {
            WgPropKind::Endpoint
        } else if is_text(v, lo, hi, "AllowedIPs") {
            WgPropKind::AllowedIPs
        } else if is_text(v, lo, hi, "PersistentKeepalive") {
            WgPropKind::PersistentKeepalive
        } else if is_text(v, lo, hi, "PrivateKey") {
            WgPropKind::PrivateKey
        } else if is_text(v, lo, hi, "ListenPort") {
            WgPropKind::ListenPort
        } else if is_text(v, lo, hi, "PostUp") {
            WgPropKind::PostUp
        } else if is_text(v, lo, hi, "PostDown") {
            WgPropKind::PostDown
        } else if is_text(v, lo, hi, "PreUp") {
            WgPropKind::PreUp
        } else if is_text(v, lo, hi, "PreDown") {
            WgPropKind::PreDown
        } else if is_text(v, lo, hi, "Fwmark") {
            WgPropKind::FWMark
        } else if is_text(v, lo, hi, "DNS") {
            WgPropKind::DNS
        } else if is_text(v, lo, hi, "MTU") {
            WgPropKind::MTU
        } else if is_text(v, lo, hi, "Address") {
            WgPropKind::Address
        } else if is_text(v, lo, hi, "Table") {
            WgPropKind::Table
        } else if is_text(v, lo, hi, "AdvertiseRoutes") {
            WgPropKind::AdvertiseRoutes
        } else if is_text(v, lo, hi, "SaveConfig") {
            WgPropKind::SaveConfig
        } else {
            WgPropKind::Unknown
        }
    }
}

} // verus!

verus! {

/// The CIDR ranges of comma-separated pieces, each trimmed; the first
/// failure is the result.
pub open spec fn cidrs_of(ps: Seq<Seq<char>>) -> Result<Seq<(Seq<u8>, nat)>, ParseError>
    decreases ps.len(),
{
    if ps.len() == 0 {
        Ok(Seq::empty())
    } else {
        match cidr_of(trim(ps[0])) {
            Err(e) => Err(e),
            Ok(c) => match cidrs_of(ps.drop_first()) {
                Ok(rest) => Ok(seq![c] + rest),
                Err(e) => Err(e),
            },
        }
    }
}

/// The IP addresses of comma-separated pieces, each trimmed.
pub open spec fn ips_of(ps: Seq<Seq<char>>) -> Result<Seq<Seq<u8>>, ParseError>
    decreases ps.len(),
{
    if ps.len() == 0 {
        Ok(Seq::empty())
    } else {
        match ip_of(trim(ps[0])) {
            None => Err(ParseError::SocketAddrParseError),
            Some(a) => match ips_of(ps.drop_first()) {
                Ok(rest) => Ok(seq![a] + rest),
                Err(e) => Err(e),
            },
        }
    }
}

/// A comma-separated list of CIDR ranges.
pub fn parse_cidr_list(v: &Vec<char>, lo: usize, hi: usize) -> (r: Result<Vec<Cidr>, ParseError>)
    requires
        lo <= hi <= v@.len(),
    ensures
        match cidrs_of(split(v@.subrange(lo as int, hi as int), ',')) {
            Ok(l) => r matches Ok(x) && x@.map_values(|c: Cidr| c@) == l,
            Err(e) => r == Err::<Vec<Cidr>, ParseError>(e),
        },
{
    let ghost ps = split(v@.subrange(lo as int, hi as int), ',');
    let parts = split_ranges(v, lo, hi, ',');
    let mut out: Vec<Cidr> = Vec::new();
    let mut k: usize = 0;
    assert(ps.subrange(0, ps.len() as int) =~= ps);
    assert(out@.map_values(|c: Cidr| c@) =~= Seq::empty());
    proof {
        match cidrs_of(ps) {
            Ok(l) => {
                assert(out@.map_values(|c: Cidr| c@) + l =~= l);
            },
            Err(e) => {},
        }
    }
    while k < parts.len()
        invariant
            ps == split(v@.subrange(lo as int, hi as int), ','),
            parts@.len() == ps.len(),
            k <= parts@.len(),
            lo <= hi <= v@.len(),
            forall|j: int|
                0 <= j < parts@.len() ==> {
                    &&& lo <= (#[trigger] parts@[j]).0 <= parts@[j].1 <= hi
                    &&& v@.subrange(parts@[j].0 as int, parts@[j].1 as int) == ps[j]
                },
            cidrs_of(ps) == match cidrs_of(ps.subrange(k as int, ps.len() as int)) {
                Ok(rest) => Ok(out@.map_values(|c: Cidr| c@) + rest),
                Err(e) => Err(e),
            },
        decreases parts@.len() - k,
    {
        let (a, b) = parts[k];
        assert(parts@[k as int] == (a, b));
        let (ta, tb) = trim_range(v, a, b);
        let ghost tail = ps.subrange(k as int, ps.len() as int);
        assert(tail[0] == ps[k as int]);
        assert(tail.drop_first() =~= ps.subrange(k + 1, ps.len() as int));
        match parse_cidr(v, ta, tb) {
            Ok(c) => {
                let ghost before = out@.map_values(|c: Cidr| c@);
                out.push(c);
                assert(out@.map_values(|c: Cidr| c@) =~= before.push(c@));
                proof {
                    match cidrs_of(ps.subrange(k + 1, ps.len() as int)) {
                        Ok(rest) => {
                            assert(before + (seq![c@] + rest) =~= before.push(c@) + rest);
                        },
                        Err(e) => {},
                    }
                }
            },
            Err(e) => {
                assert(v@.subrange(ta as int, tb as int) == trim(tail[0]));
                assert(cidrs_of(tail) == Err::<Seq<(Seq<u8>, nat)>, ParseError>(e));
                return Err(e);
            },
        }
        k = k + 1;
    }
    assert(ps.subrange(k as int, ps.len() as int) =~= Seq::<Seq<char>>::empty());
    assert(out@.map_values(|c: Cidr| c@) + Seq::empty() =~= out@.map_values(|c: Cidr| c@));
    Ok(out)
}

/// A comma-separated list of IP addresses.
pub fn parse_ip_list(v: &Vec<char>, lo: usize, hi: usize) -> (r: Result<Vec<IpAddr>, ParseError>)
    requires
        lo <= hi <= v@.len(),
    ensures
        match ips_of(split(v@.subrange(lo as int, hi as int), ',')) {
            Ok(l) => r matches Ok(x) && x@.map_values(|a: IpAddr| a@) == l,
            Err(e) => r == Err::<Vec<IpAddr>, ParseError>(e),
        },
{
    let ghost ps = split(v@.subrange(lo as int, hi as int), ',');
    let parts = split_ranges(v, lo, hi, ',');
    let mut out: Vec<IpAddr> = Vec::new();
    let mut k: usize = 0;
    assert(ps.subrange(0, ps.len() as int) =~= ps);
    assert(out@.map_values(|a: IpAddr| a@) =~= Seq::empty());
    proof {
        match ips_of(ps) {
            Ok(l) => {
                assert(out@.map_values(|a: IpAddr| a@) + l =~= l);
            },
            Err(e) => {},
        }
    }
    while k < parts.len()
        invariant
            ps == split(v@.subrange(lo as int, hi as int), ','),
            parts@.len() == ps.len(),
            k <= parts@.len(),
            lo <= hi <= v@.len(),
            forall|j: int|
                0 <= j < parts@.len() ==> {
                    &&& lo <= (#[trigger] parts@[j]).0 <= parts@[j].1 <= hi
                    &&& v@.subrange(parts@[j].0 as int, parts@[j].1 as int) == ps[j]
                },
            ips_of(ps) == match ips_of(ps.subrange(k as int, ps.len() as int)) {
                Ok(rest) => Ok(out@.map_values(|a: IpAddr| a@) + rest),
                Err(e) => Err(e),
            },
        decreases parts@.len() - k,
    {
        let (a, b) = parts[k];
        assert(parts@[k as int] == (a, b));
        let (ta, tb) = trim_range(v, a, b);
        let ghost tail = ps.subrange(k as int, ps.len() as int);
        assert(tail[0] == ps[k as int]);
        assert(tail.drop_first() =~= ps.subrange(k + 1, ps.len() as int));
        match parse_ip(v, ta, tb) {
            Some(ip) => {
                let ghost before = out@.map_values(|a: IpAddr| a@);
                out.push(ip);
                assert(out@.map_values(|a: IpAddr| a@) =~= before.push(ip@));
                proof {
                    match ips_of(ps.subrange(k + 1, ps.len() as int)) {
                        Ok(rest) => {
                            assert(before + (seq![ip@] + rest) =~= before.push(ip@) + rest);
                        },
                        Err(e) => {},
                    }
                }
            },
            None => {
                assert(v@.subrange(ta as int, tb as int) == trim(tail[0]));
                assert(ips_of(tail) == Err::<Seq<Seq<u8>>, ParseError>(ParseError::SocketAddrParseError));
                return Err(ParseError::SocketAddrParseError);
            },
        }
        k = k + 1;
    }
    assert(ps.subrange(k as int, ps.len() as int) =~= Seq::<Seq<char>>::empty());
    assert(out@.map_values(|a: IpAddr| a@) + Seq::empty() =~= out@.map_values(|a: IpAddr| a@));
    Ok(out)
}

} // verus!

verus! {

/// `true` or `false`.
pub open spec fn bool_of(s: Seq<char>) -> Option<bool> {
    if s == "true"@ {
        Some(true)
    } else if s == "false"@ {
        Some(false)
    } else {
        None
    }
}

/// An unsigned field value no larger than `max`.
pub open spec fn uint_field(val: Seq<char>, max: nat) -> Result<nat, ParseError> {
    match parse_unsigned(val, max) {
        Some(n) => Ok(n),
        None => Err(ParseError::ParseIntError),
    }
}

/// The interface section after one `name = val` line naming `kind`.
pub open spec fn iface_apply(iv: InterfaceView, kind: WgPropKind, val: Seq<char>) -> Result<
    InterfaceView,
    ParseError,
> {
    match kind {
        WgPropKind::PrivateKey => match key_of_text(val) {
            Some(k) => Ok(InterfaceView { private_key: k, ..iv }),
            None => Err(ParseError::KeyParseError),
        },
        WgPropKind::Address => match cidr_of(val) {
            Ok(c) => Ok(InterfaceView { address: c, ..iv }),
            Err(e) => Err(e),
        },
        WgPropKind::ListenPort => match uint_field(val, 65535) {
            Ok(n) => Ok(InterfaceView { listen_port: Some(n), ..iv }),
            Err(e) => Err(e),
        },
        WgPropKind::MTU => match uint_field(val, 65535) {
            Ok(n) => Ok(InterfaceView { mtu: Some(n), ..iv }),
            Err(e) => Err(e),
        },
        WgPropKind::Table => match uint_field(val, 4294967295) {
            Ok(n) => Ok(InterfaceView { table: Some(n), ..iv }),
            Err(e) => Err(e),
        },
        WgPropKind::FWMark => match uint_field(val, 4294967295) {
            Ok(n) => Ok(InterfaceView { fwmark: Some(n), ..iv }),
            Err(e) => Err(e),
        },
        WgPropKind::DNS => match ips_of(split(val, ',')) {
            Ok(l) => Ok(InterfaceView { dns: Some(l), ..iv }),
            Err(e) => Err(e),
        },
        WgPropKind::AdvertiseRoutes => match cidrs_of(split(val, ',')) {
            Ok(l) => Ok(InterfaceView { advertise_routes: Some(l), ..iv }),
            Err(e) => Err(e),
        },
        WgPropKind::PostUp => Ok(InterfaceView { post_up: Some(val), ..iv }),
        WgPropKind::PostDown => Ok(InterfaceView { post_down: Some(val), ..iv }),
        WgPropKind::PreUp => Ok(InterfaceView { pre_up: Some(val), ..iv }),
        WgPropKind::PreDown => Ok(InterfaceView { pre_down: Some(val), ..iv }),
        WgPropKind::SaveConfig => match bool_of(val) {
            Some(b) => Ok(InterfaceView { save_config: Some(b), ..iv }),
            None => Err(ParseError::UnexpectedToken),
        },
        _ => Ok(iv),
    }
}

/// A peer section after one `name = val` line naming `kind`.
pub open spec fn peer_apply(pv: PeerView, kind: WgPropKind, val: Seq<char>) -> Result<
    PeerView,
    ParseError,
> {
    match kind {
        WgPropKind::PublicKey => match key_of_text(val) {
            Some(k) => Ok(PeerView { public_key: k, ..pv }),
            None => Err(ParseError::KeyParseError),
        },
        WgPropKind::PresharedKey => match key_of_text(val) {
            Some(k) => Ok(PeerView { preshared_key: Some(k), ..pv }),
            None => Err(ParseError::KeyParseError),
        },
        WgPropKind::Endpoint => Ok(PeerView { endpoint: Some(endpoint_of(val)), ..pv }),
        WgPropKind::AllowedIPs => match cidrs_of(split(val, ',')) {
            Ok(l) => Ok(PeerView { allowed_ips: Some(l), ..pv }),
            Err(e) => Err(e),
        },
        WgPropKind::PersistentKeepalive => match uint_field(val, 4294967295) {
            Ok(n) => Ok(PeerView { persistent_keepalive: Some(n), ..pv }),
            Err(e) => Err(e),
        },
        _ => Ok(pv),
    }
}

/// The key that `v[lo..hi]` spells, where `v` holds the characters of `s`.
fn key_field(s: &str, v: &Vec<char>, lo: usize, hi: usize) -> (r: Result<Key, ParseError>)
    requires
        v@ == s@,
        lo <= hi <= v@.len(),
    ensures
        match key_of_text(v@.subrange(lo as int, hi as int)) {
            Some(b) => r matches Ok(k) && k@ == b,
            None => r == Err::<Key, ParseError>(ParseError::KeyParseError),
        },
{
    let text = substring(s, v, lo, hi);
    Key::parse(text.as_str())
}

/// An unsigned field value of `v[lo..hi]` no larger than `max`.
fn uint_value(v: &Vec<char>, lo: usize, hi: usize, max: u64) -> (r: Result<u64, ParseError>)
    requires
        lo <= hi <= v@.len(),
    ensures
        match uint_field(v@.subrange(lo as int, hi as int), max as nat) {
            Ok(n) => r == Ok::<u64, ParseError>(n as u64),
            Err(e) => r == Err::<u64, ParseError>(e),
        },
{
    match parse_uint(v, lo, hi, max) {
        Some(n) => Ok(n),
        None => Err(ParseError::ParseIntError),
    }
}

impl WgConfigInterface {
    /// Sets the field `kind` from the value text `v[lo..hi]`.
    pub fn apply(&mut self, kind: WgPropKind, s: &str, v: &Vec<char>, lo: usize, hi: usize) -> (r:
        Result<(), ParseError>)
        requires
            v@ == s@,
            lo <= hi <= v@.len(),
        ensures
            match iface_apply(old(self)@, kind, v@.subrange(lo as int, hi as int)) {
                Ok(nv) => r is Ok && final(self)@ == nv,
                Err(e) => r == Err::<(), ParseError>(e),
            },
    {
        let ghost val = v@.subrange(lo as int, hi as int);
        match kind {
            WgPropKind::PrivateKey => {
                let k = key_field(s, v, lo, hi)?;
                self.private_key = k;
            },
            WgPropKind::Address => {
                let c = parse_cidr(v, lo, hi)?;
                self.address = c;
            },
            WgPropKind::ListenPort => {
                let n = uint_value(v, lo, hi, 65535)?;
                self.listen_port = Some(n as u16);
            },
            WgPropKind::MTU => {
                let n = uint_value(v, lo, hi, 65535)?;
                self.mtu = Some(n as u16);
            },
            WgPropKind::Table => {
                let n = uint_value(v, lo, hi, 4294967295)?;
                self.table = Some(n as u32);
            },
            WgPropKind::FWMark => {
                let n = uint_value(v, lo, hi, 4294967295)?;
                self.fwmark = Some(n as u32);
            },
            WgPropKind::DNS => {
                let l = parse_ip_list(v, lo, hi)?;
                self.dns = Some(l);
            },
            WgPropKind::AdvertiseRoutes => {
                let l = parse_cidr_list(v, lo, hi)?;
                self.advertise_routes = Some(l);
            },
            WgPropKind::PostUp => {
                self.post_up = Some(substring(s, v, lo, hi));
            },
            WgPropKind::PostDown => {
                self.post_down = Some(substring(s, v, lo, hi));
            },
            WgPropKind::PreUp => {
                self.pre_up = Some(substring(s, v, lo, hi));
            },
            WgPropKind::PreDown => {
                self.pre_down = Some(substring(s, v, lo, hi));
            },
            WgPropKind::SaveConfig => {
                if is_text(v, lo, hi, "true") {
                    self.save_config = Some(true);
                } else if is_text(v, lo, hi, "false") {
                    self.save_config = Some(false);
                } else {
                    return Err(ParseError::UnexpectedToken);
                }
            },
            _ => {},
        }
        Ok(())
    }
}

impl WgConfigPeer {
    /// Sets the field `kind` from the value text `v[lo..hi]`.
    pub fn apply(&mut self, kind: WgPropKind, s: &str, v: &Vec<char>, lo: usize, hi: usize) -> (r:
        Result<(), ParseError>)
        requires
            v@ == s@,
            lo <= hi <= v@.len(),
        ensures
            match peer_apply(old(self)@, kind, v@.subrange(lo as int, hi as int)) {
                Ok(nv) => r is Ok && final(self)@ == nv,
                Err(e) => r == Err::<(), ParseError>(e),
            },
    {
        match kind {
            WgPropKind::PublicKey => {
                let k = key_field(s, v, lo, hi)?;
                self.public_key = k;
            },
            WgPropKind::PresharedKey => {
                let k = key_field(s, v, lo, hi)?;
                self.preshared_key = Some(k);
            },
            WgPropKind::Endpoint => {
                let e = parse_endpoint(s, v, lo, hi);
                proof {
                    lemma_endpoint_is(e, v@.subrange(lo as int, hi as int));
                }
                self.endpoint = Some(e);
            },
            WgPropKind::AllowedIPs => {
                let l = parse_cidr_list(v, lo, hi)?;
                self.allowed_ips = Some(l);
            },
            WgPropKind::PersistentKeepalive => {
                let n = uint_value(v, lo, hi, 4294967295)?;
                self.persistent_keepalive = Some(n as u32);
            },
            _ => {},
        }
        Ok(())
    }
}

} // verus!

verus! {

/// The section that the lines being read belong to.
#[derive(Debug, Clone, Copy, PartialEq, Eq, Structural)]
pub enum Section {
    Outside,
    Interface,
    Peer,
}

/// What has been read so far.
pub ghost struct ParseState {
    pub section: Section,
    pub have_iface: bool,
    pub iface: InterfaceView,
    pub peers: Seq<PeerView>,
    /// The peer section being read, when `section` is `Peer`.
    pub cur: PeerView,
}

pub open spec fn zero_key() -> Seq<u8> {
    Seq::new(32, |i: int| 0u8)
}

/// An interface section with no line read.
pub open spec fn default_iface() -> InterfaceView {
    InterfaceView {
        private_key: zero_key(),
        address: (seq![0u8, 0u8, 0u8, 0u8], 0),
        listen_port: None,
        mtu: None,
        dns: None,
        table: None,
        fwmark: None,
        advertise_routes: None,
        pre_up: None,
        pre_down: None,
        post_up: None,
        post_down: None,
        save_config: None,
    }
}

/// A peer section with no line read.
pub open spec fn default_peer() -> PeerView {
    PeerView {
        public_key: zero_key(),
        preshared_key: None,
        endpoint: None,
        allowed_ips: None,
        persistent_keepalive: None,
    }
}

pub open spec fn initial_state() -> ParseState {
    ParseState {
        section: Section::Outside,
        have_iface: false,
        iface: default_iface(),
        peers: Seq::empty(),
        cur: default_peer(),
    }
}

/// The finished peer sections, the one being read included.
pub open spec fn flushed(st: ParseState) -> Seq<PeerView> {
    if st.section == Section::Peer {
        st.peers.push(st.cur)
    } else {
        st.peers
    }
}

/// The state after one line.
pub open spec fn line_step(st: ParseState, line: Seq<char>) -> Result<ParseState, ParseError> {
    let t = trim(line);
    if starts_with(t, "[Interface]"@) {
        if st.have_iface {
            Err(ParseError::UnexpectedToken)
        } else {
            Ok(
                ParseState {
                    section: Section::Interface,
                    have_iface: true,
                    iface: default_iface(),
                    peers: flushed(st),
                    cur: default_peer(),
                },
            )
        }
    } else if starts_with(t, "[Peer]"@) {
        Ok(ParseState { section: Section::Peer, peers: flushed(st), cur: default_peer(), ..st })
    } else if t.len() == 0 || st.section == Section::Outside {
        Ok(st)
    } else if t[0] == '[' {
        Err(ParseError::UnexpectedToken)
    } else {
        match find(line, '=') {
            None => Err(ParseError::Expected('=')),
            Some(i) => {
                let kind = prop_kind_of(trim(line.subrange(0, i)));
                let val = trim(line.subrange(i + 1, line.len() as int));
                if st.section == Section::Interface {
                    match iface_apply(st.iface, kind, val) {
                        Ok(iv) => Ok(ParseState { iface: iv, ..st }),
                        Err(e) => Err(e),
                    }
                } else {
                    match peer_apply(st.cur, kind, val) {
                        Ok(pv) => Ok(ParseState { cur: pv, ..st }),
                        Err(e) => Err(e),
                    }
                }
            },
        }
    }
}

/// The state after the given lines, or the first error.
pub open spec fn run_lines(lines: Seq<Seq<char>>, st: ParseState) -> Result<ParseState, ParseError>
    decreases lines.len(),
{
    if lines.len() == 0 {
        Ok(st)
    } else {
        match line_step(st, lines[0]) {
            Ok(next) => run_lines(lines.drop_first(), next),
            Err(e) => Err(e),
        }
    }
}

/// What a configuration text gives: the interface section and the peer
/// sections in source order, or the first error.
pub open spec fn config_of(s: Seq<char>) -> Result<(InterfaceView, Seq<PeerView>), ParseError> {
    match run_lines(split(s, '\n'), initial_state()) {
        Err(e) => Err(e),
        Ok(st) => if st.have_iface {
            Ok((st.iface, flushed(st)))
        } else {
            Err(ParseError::NoInterfaceSection)
        },
    }
}

impl Default for WgConfigInterface {
    fn default() -> (r: WgConfigInterface)
        ensures
            r@ == default_iface(),
    {
        let r = WgConfigInterface {
            private_key: Key::default(),
            address: Cidr::default(),
            listen_port: None,
            mtu: None,
            dns: None,
            table: None,
            fwmark: None,
            advertise_routes: None,
            pre_up: None,
            pre_down: None,
            post_up: None,
            post_down: None,
            save_config: None,
        };
        assert(r.private_key@ =~= zero_key());
        r
    }
}

impl Default for WgConfigPeer {
    fn default() -> (r: WgConfigPeer)
        ensures
            r@ == default_peer(),
    {
        let r = WgConfigPeer {
            public_key: Key::default(),
            preshared_key: None,
            endpoint: None,
            allowed_ips: None,
            persistent_keepalive: None,
        };
        assert(r.public_key@ =~= zero_key());
        r
    }
}

/// Reads `v[lo..hi]` up to the first `p`. Gives the bounds of the text
/// before it, trimmed; where reading goes on, just past the `p` or else at
/// `hi`; and whether there was a `p`.
pub fn until(v: &Vec<char>, lo: usize, hi: usize, p: char) -> (r: (usize, usize, usize, bool))
    requires
        lo <= hi <= v@.len(),
    ensures
        lo <= r.0 <= r.1 <= r.2 <= hi,
        match find(v@.subrange(lo as int, hi as int), p) {
            Some(k) => r.3 && 0 <= k && r.2 == lo + k + 1 && v@.subrange(r.0 as int, r.1 as int) == trim(
                v@.subrange(lo as int, lo + k),
            ),
            None => !r.3 && r.2 == hi && v@.subrange(r.0 as int, r.1 as int) == trim(
                v@.subrange(lo as int, hi as int),
            ),
        },
{
    match find_char(v, lo, hi, p) {
        Some(i) => {
            let (a, b) = trim_range(v, lo, i);
            (a, b, i + 1, true)
        },
        None => {
            let (a, b) = trim_range(v, lo, hi);
            (a, b, hi, false)
        },
    }
}

/// The parser's state while it reads the lines.
struct ConfigBuilder {
    section: Section,
    have_iface: bool,
    iface: WgConfigInterface,
    peers: Vec<WgConfigPeer>,
    cur: WgConfigPeer,
}

impl View for ConfigBuilder {
    type V = ParseState;

    closed spec fn view(&self) -> ParseState {
        ParseState {
            section: self.section,
            have_iface: self.have_iface,
            iface: self.iface@,
            peers: self.peers@.map_values(|p: WgConfigPeer| p@),
            cur: self.cur@,
        }
    }
}

impl ConfigBuilder {
    /// Moves the peer section being read, if any, to the finished ones.
    fn flush(&mut self)
        ensures
            final(self)@.peers == flushed(old(self)@),
            final(self).section == old(self).section,
            final(self).have_iface == old(self).have_iface,
            final(self).iface == old(self).iface,
    {
        if self.section == Section::Peer {
            let mut done = WgConfigPeer::default();
            std::mem::swap(&mut self.cur, &mut done);
            let ghost before = self.peers@.map_values(|p: WgConfigPeer| p@);
            self.peers.push(done);
            assert(self.peers@.map_values(|p: WgConfigPeer| p@) =~= before.push(done@));
        }
    }

    /// Reads the line `v[lo..hi]`.
    fn feed_line(&mut self, s: &str, v: &Vec<char>, lo: usize, hi: usize) -> (r: Result<
        (),
        ParseError,
    >)
        requires
            v@ == s@,
            lo <= hi <= v@.len(),
        ensures
            match line_step(old(self)@, v@.subrange(lo as int, hi as int)) {
                Ok(next) => r is Ok && final(self)@ == next,
                Err(e) => r == Err::<(), ParseError>(e),
            },
    {
        let ghost line = v@.subrange(lo as int, hi as int);
        let (a, b) = trim_range(v, lo, hi);
        if starts_with_at(v, a, b, "[Interface]") {
            if self.have_iface {
                return Err(ParseError::UnexpectedToken);
            }
            self.flush();
            self.section = Section::Interface;
            self.have_iface = true;
            self.iface = WgConfigInterface::default();
            self.cur = WgConfigPeer::default();
            return Ok(());
        }
        if starts_with_at(v, a, b, "[Peer]") {
            self.flush();
            self.section = Section::Peer;
            self.cur = WgConfigPeer::default();
            return Ok(());
        }
        if a == b || self.section == Section::Outside {
            return Ok(());
        }
        assert(v@.subrange(a as int, b as int)[0] == v@[a as int]);
        if v[a] == '[' {
            return Err(ParseError::UnexpectedToken);
        }
        let (ka, kb, next, found) = until(v, lo, hi, '=');
        if !found {
            return Err(ParseError::Expected('='));
        }
        let ghost i = next - 1;
        assert(find(line, '=') == Some(i - lo));
        assert(line.subrange(0, i - lo) =~= v@.subrange(lo as int, i as int));
        assert(line.subrange(i - lo + 1, line.len() as int) =~= v@.subrange(
            next as int,
            hi as int,
        ));
        let kind = WgPropKind::from_chars(v, ka, kb);
        let (va, vb) = trim_range(v, next, hi);
        if self.section == Section::Interface {
            self.iface.apply(kind, s, v, va, vb)
        } else {
            self.cur.apply(kind, s, v, va, vb)
        }
    }
}

impl WgConfig {
    /// Parses a configuration text.
    pub fn parse_config(input: &str) -> (r: Result<WgConfig, ParseError>)
        ensures
            match config_of(input@) {
                Ok((iv, pv)) => r matches Ok(c) && c.interface@ == iv && c.peers@.map_values(
                    |p: WgConfigPeer| p@,
                ) == pv,
                Err(e) => r == Err::<WgConfig, ParseError>(e),
            },
    {
        let v = chars_of(input);
        let n = v.len();
        let lines = split_ranges(&v, 0, n, '\n');
        let ghost ls = split(v@.subrange(0, n as int), '\n');
        assert(v@.subrange(0, n as int) =~= input@);
        let mut b = ConfigBuilder {
            section: Section::Outside,
            have_iface: false,
            iface: WgConfigInterface::default(),
            peers: Vec::new(),
            cur: WgConfigPeer::default(),
        };
        assert(b@.peers =~= Seq::<PeerView>::empty());
        assert(ls.subrange(0, ls.len() as int) =~= ls);
        let mut k: usize = 0;
        while k < lines.len()
            invariant
                v@ == input@,
                n == v@.len(),
                ls == split(input@, '\n'),
                lines@.len() == ls.len(),
                k <= lines@.len(),
                forall|j: int|
                    0 <= j < lines@.len() ==> {
                        &&& 0 <= (#[trigger] lines@[j]).0 <= lines@[j].1 <= n
                        &&& v@.subrange(lines@[j].0 as int, lines@[j].1 as int) == ls[j]
                    },
                run_lines(ls, initial_state()) == run_lines(
                    ls.subrange(k as int, ls.len() as int),
                    b@,
                ),
            decreases lines@.len() - k,
        {
            let (lo, hi) = lines[k];
            assert(lines@[k as int] == (lo, hi));
            let ghost tail = ls.subrange(k as int, ls.len() as int);
            assert(tail[0] == ls[k as int]);
            assert(tail.drop_first() =~= ls.subrange(k + 1, ls.len() as int));
            b.feed_line(input, &v, lo, hi)?;
            k = k + 1;
        }
        assert(ls.subrange(k as int, ls.len() as int) =~= Seq::<Seq<char>>::empty());
        if !b.have_iface {
            return Err(ParseError::NoInterfaceSection);
        }
        b.flush();
        Ok(WgConfig { interface: b.iface, peers: b.peers })
    }
}

} // verus!

verus! {

/// A line that opens a peer section.
pub open spec fn is_peer_header(line: Seq<char>) -> bool {
    starts_with(trim(line), "[Peer]"@)
}

/// A line that opens the interface section.
pub open spec fn is_interface_header(line: Seq<char>) -> bool {
    starts_with(trim(line), "[Interface]"@)
}

/// The number of lines that open a peer section.
pub open spec fn peer_headers(lines: Seq<Seq<char>>) -> nat
    decreases lines.len(),
{
    if lines.len() == 0 {
        0
    } else {
        (if is_peer_header(lines[0]) { 1nat } else { 0nat }) + peer_headers(lines.drop_first())
    }
}

proof fn lemma_headers_distinct(line: Seq<char>)
    ensures
        !(is_peer_header(line) && is_interface_header(line)),
{
    reveal_strlit("[Peer]");
    reveal_strlit("[Interface]");
    if is_peer_header(line) && is_interface_header(line) {
        let t = trim(line);
        assert(t.subrange(0, 6)[1] == 'P');
        assert(t.subrange(0, 11)[1] == 'I');
        assert(t[1] == t.subrange(0, 6)[1]);
        assert(t[1] == t.subrange(0, 11)[1]);
    }
}

proof fn lemma_run_counts_peers(lines: Seq<Seq<char>>, st: ParseState)
    ensures
        run_lines(lines, st) matches Ok(end) ==> flushed(end).len() == flushed(st).len()
            + peer_headers(lines),
    decreases lines.len(),
{
    if lines.len() > 0 {
        lemma_headers_distinct(lines[0]);
        match line_step(st, lines[0]) {
            Ok(next) => {
                lemma_run_counts_peers(lines.drop_first(), next);
                if is_peer_header(lines[0]) {
                    assert(flushed(next).len() == flushed(st).len() + 1);
                } else {
                    assert(flushed(next).len() == flushed(st).len());
                }
            },
            Err(e) => {},
        }
    }
}

/// Each `[Peer]` header line of a configuration that parses gives one peer.
pub proof fn lemma_peer_count(s: Seq<char>)
    ensures
        config_of(s) matches Ok((iv, pv)) ==> pv.len() == peer_headers(split(s, '\n')),
{
    lemma_run_counts_peers(split(s, '\n'), initial_state());
}

proof fn lemma_run_without_interface(lines: Seq<Seq<char>>, st: ParseState)
    requires
        !st.have_iface,
        forall|k: int| 0 <= k < lines.len() ==> !is_interface_header(#[trigger] lines[k]),
    ensures
        run_lines(lines, st) matches Ok(end) ==> !end.have_iface,
    decreases lines.len(),
{
    if lines.len() > 0 {
        assert(!is_interface_header(lines[0]));
        match line_step(st, lines[0]) {
            Ok(next) => {
                assert forall|k: int| 0 <= k < lines.drop_first().len() implies !is_interface_header(
                    #[trigger] lines.drop_first()[k],
                ) by {
                    assert(lines.drop_first()[k] == lines[k + 1]);
                }
                lemma_run_without_interface(lines.drop_first(), next);
            },
            Err(e) => {},
        }
    }
}

/// A configuration without an `[Interface]` header line is rejected: with
/// `NoInterfaceSection` unless an earlier line is in error.
pub proof fn lemma_no_interface(s: Seq<char>)
    requires
        forall|k: int|
            0 <= k < split(s, '\n').len() ==> !is_interface_header(#[trigger] split(s, '\n')[k]),
    ensures
        config_of(s) is Err,
        run_lines(split(s, '\n'), initial_state()) is Ok ==> config_of(s) == Err::<
            (InterfaceView, Seq<PeerView>),
            ParseError,
        >(ParseError::NoInterfaceSection),
{
    lemma_run_without_interface(split(s, '\n'), initial_state());
}

} // verus!
