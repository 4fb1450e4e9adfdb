//! What the control surface reports of a peer.

use super::config::WgConfigPeer;
use super::{Cidr, Endpoint, Key};
use vstd::prelude::*;

verus! {

/// A peer of a running interface.
#[derive(Debug, Clone, PartialEq, Eq)]
pub struct WgPeerInfo {
    pub public_key: Key,
    pub preshared_key: Option<Key>,
    pub endpoint: Option<Endpoint>,
    pub allowed_ips: Option<Vec<Cidr>>,
    pub persistent_keepalive: Option<u32>,
    pub latest_handshake: Option<u32>,
    pub transfer: Option<(u64, u64)>,
}

impl From<WgConfigPeer> for WgPeerInfo {
    /// The configured fields; nothing is known yet of handshakes or traffic.
    fn from(peer: WgConfigPeer) -> (r: WgPeerInfo) {
        WgPeerInfo {
            public_key: peer.public_key,
            preshared_key: peer.preshared_key,
            endpoint: peer.endpoint,
            allowed_ips: peer.allowed_ips,
            persistent_keepalive: peer.persistent_keepalive,
            latest_handshake: None,
            transfer: None,
        }
    }
}

impl vstd::std_specs::convert::FromSpecImpl<WgConfigPeer> for WgPeerInfo {
    open spec fn obeys_from_spec() -> bool {
        true
    }

    open spec fn from_spec(peer: WgConfigPeer) -> WgPeerInfo {
        WgPeerInfo {
            public_key: peer.public_key,
            preshared_key: peer.preshared_key,
            endpoint: peer.endpoint,
            allowed_ips: peer.allowed_ips,
            persistent_keepalive: peer.persistent_keepalive,
            latest_handshake: None,
            transfer: None,
        }
    }
}

} // verus!
