//! The rendezvous protocol: the peer update message, its wire format, the
//! events that inbound messages become, and the chat-channel binding.

pub mod irc;
pub mod wire;

use crate::wg::{Cidr, Key, SocketAddr};
use vstd::prelude::*;

verus! {

/// What a node announces about a peer: its key, the socket address at which
/// it is reachable, and the routes it advertises.
#[derive(Debug, Clone, PartialEq, Eq)]
pub struct PeerUpdate {
    pub key: Key,
    pub endpoint: SocketAddr,
    pub advertise_routes: Vec<Cidr>,
}

/// A peer update over plain values.
pub ghost struct UpdateView {
    pub key: Seq<u8>,
    pub endpoint: (Seq<u8>, u16),
    pub routes: Seq<(Seq<u8>, nat)>,
}

impl View for PeerUpdate {
    type V = UpdateView;

    open spec fn view(&self) -> UpdateView {
        UpdateView {
            key: self.key@,
            endpoint: (self.endpoint.ip@, self.endpoint.port),
            routes: self.advertise_routes@.map_values(|c: Cidr| c@),
        }
    }
}

} // verus!
