//! The rendezvous binding over a public chat network: identities derived
//! from keys, message text, and the classification of inbound messages.
//!
//! A handle is derived from a key alone. It is a pseudonym, not a proof of
//! key possession: anyone may send under any handle, and two keys may share
//! one. Trust rests on the mesh protocol's own key-based handshake.

use super::wire::{decode_update, dec_update, enc_update, encode_update, update_wf};
use super::{PeerUpdate, UpdateView};
use crate::primitives::{
    decode_url_safe, encode_url_safe, is_url_safe_char, sha256, sha256_of, url_safe_b64,
};
use crate::wg::Key;
use vstd::prelude::*;
use vstd::string::*;

verus! {

/// The number of characters of a handle.
pub const NICKNAME_LENGTH: usize = 12;

/// The handle of the key with bytes `k`: the first characters of the
/// URL-safe text of its SHA-256 digest.
pub open spec fn handle_of(k: Seq<u8>) -> Seq<char> {
    url_safe_b64(sha256_of(k)).subrange(0, NICKNAME_LENGTH as int)
}

/// The handle of a key.
pub fn handle(key: &Key) -> (r: String)
    ensures
        r@ == handle_of(key@),
        r@.len() == NICKNAME_LENGTH,
        forall|i: int| 0 <= i < r@.len() ==> is_url_safe_char(#[trigger] r@[i]),
{
    let digest = sha256(key.0.as_slice());
    let text = encode_url_safe(digest.as_slice());
    let r = String::from_str(text.as_str().substring_char(0, NICKNAME_LENGTH));
    proof {
        assert forall|i: int| 0 <= i < r@.len() implies is_url_safe_char(#[trigger] r@[i]) by {
            assert(r@[i] == text@[i]);
        }
    }
    r
}

/// Deriving a handle depends on the key alone: equal keys give equal handles.
pub proof fn lemma_handle_deterministic(a: Seq<u8>, b: Seq<u8>)
    requires
        a == b,
    ensures
        handle_of(a) == handle_of(b),
{
}

/// The update that a message text holds: the bytes that the text is the
/// URL-safe encoding of, decoded.
pub open spec fn decoded(t: Seq<char>) -> Option<UpdateView> {
    if exists|b: Seq<u8>| #[trigger] url_safe_b64(b) == t {
        dec_update(choose|b: Seq<u8>| #[trigger] url_safe_b64(b) == t)
    } else {
        None
    }
}

/// The text of an update on the channel.
pub fn encode_msg(peer: &PeerUpdate) -> (r: String)
    ensures
        r@ == url_safe_b64(enc_update(peer@)),
        update_wf(peer@),
{
    let bytes = encode_update(peer);
    encode_url_safe(bytes.as_slice())
}

/// The update that a message text holds, if it holds one.
pub fn decode_msg(msg: &str) -> (r: Option<PeerUpdate>)
    ensures
        match decoded(msg@) {
            Some(u) => r matches Some(x) && x@ == u,
            None => r is None,
        },
        forall|b: Seq<u8>|
            #[trigger] url_safe_b64(b) == msg@ ==> match dec_update(b) {
                Some(u) => r matches Some(x) && x@ == u,
                None => r is None,
            },
{
    match decode_url_safe(msg) {
        Some(bytes) => {
            proof {
                let c = choose|b: Seq<u8>| #[trigger] url_safe_b64(b) == msg@;
                assert(url_safe_b64(bytes@) == msg@);
                assert(c == bytes@);
            }
            decode_update(&bytes)
        },
        None => {
            proof {
                if exists|b: Seq<u8>| #[trigger] url_safe_b64(b) == msg@ {
                    let c = choose|b: Seq<u8>| #[trigger] url_safe_b64(b) == msg@;
                    assert(url_safe_b64(c) == msg@);
                }
            }
            None
        },
    }
}

/// What the contract of `decode_msg` says of a result `r` on the text `t`.
pub open spec fn decodes_to(t: Seq<char>, r: Option<UpdateView>) -> bool {
    forall|b: Seq<u8>| #[trigger] url_safe_b64(b) == t ==> r == dec_update(b)
}

/// Decoding the text of an update gives that update back.
pub proof fn lemma_message_round_trip(u: UpdateView, r: Option<UpdateView>)
    requires
        update_wf(u),
        decodes_to(url_safe_b64(enc_update(u)), r),
    ensures
        r == Some(u),
{
    super::wire::lemma_wire_round_trip(u);
    assert(url_safe_b64(enc_update(u)) == url_safe_b64(enc_update(u)));
}

} // verus!

verus! {

/// An update observed on the rendezvous channel.
#[derive(Debug, Clone, PartialEq, Eq)]
pub enum PeerEvent {
    /// Sent to the shared channel by the named sender.
    Request(String, PeerUpdate),
    /// Sent directly to this node.
    Response(PeerUpdate),
}

/// An event over plain values.
pub ghost enum EventView {
    Request(Seq<char>, UpdateView),
    Response(UpdateView),
}

impl View for PeerEvent {
    type V = EventView;

    open spec fn view(&self) -> EventView {
        match self {
            PeerEvent::Request(n, u) => EventView::Request(n@, u@),
            PeerEvent::Response(u) => EventView::Response(u@),
        }
    }
}

/// Where and how to reach the chat network.
#[derive(Debug, Clone, PartialEq, Eq)]
pub struct IrcConfig {
    pub server: String,
    pub port: Option<u16>,
    pub tls: bool,
    pub channel: String,
}

/// The kind and content of an inbound chat message.
#[derive(Debug, Clone, PartialEq, Eq)]
pub enum Command {
    /// A text message to a channel or a user.
    Privmsg { target: String, body: String },
    /// Anything else the network sends.
    Other,
}

/// An inbound chat message: its sender's handle, where the network names
/// one, and its command.
#[derive(Debug, Clone, PartialEq, Eq)]
pub struct InboundMessage {
    pub sender: Option<String>,
    pub command: Command,
}

/// The identities of a connected session: the shared channel, this node's
/// handle, and the handle of every configured peer with its key.
#[derive(Debug, Clone)]
pub struct IrcSession {
    pub channel: String,
    pub nickname: String,
    pub registry: Vec<(String, Key)>,
}

/// The event that an inbound message gives on the channel `channel` to the
/// node with handle `own`, or none: the message is dropped.
pub open spec fn classify_spec(
    sender: Option<Seq<char>>,
    target: Seq<char>,
    body: Seq<char>,
    channel: Seq<char>,
    own: Seq<char>,
) -> Option<EventView> {
    match (sender, decoded(body)) {
        (Some(n), Some(u)) => if target == channel {
            Some(EventView::Request(n, u))
        } else if target == own {
            Some(EventView::Response(u))
        } else {
            None
        },
        _ => None,
    }
}

impl IrcSession {
    /// The session of the node with key `pub_key` on `config`'s channel,
    /// with the handles of the configured peers' keys.
    pub fn new(config: &IrcConfig, pub_key: &Key, peers: &Vec<Key>) -> (r: IrcSession)
        ensures
            r.channel@ == config.channel@,
            r.nickname@ == handle_of(pub_key@),
            r.registry@.len() == peers@.len(),
            forall|i: int|
                0 <= i < peers@.len() ==> (#[trigger] r.registry@[i]).0@ == handle_of(
                    peers@[i]@,
                ) && r.registry@[i].1 == peers@[i],
    {
        let mut registry: Vec<(String, Key)> = Vec::new();
        let mut i: usize = 0;
        while i < peers.len()
            invariant
                i <= peers@.len(),
                registry@.len() == i,
                forall|j: int|
                    0 <= j < i ==> (#[trigger] registry@[j]).0@ == handle_of(peers@[j]@)
                        && registry@[j].1 == peers@[j],
            decreases peers@.len() - i,
        {
            let k = peers[i];
            registry.push((handle(&k), k));
            i = i + 1;
        }
        IrcSession { channel: config.channel.clone(), nickname: handle(pub_key), registry }
    }

    /// Where an announcement goes: to the named handle, or else to the
    /// shared channel.
    pub fn announce_target(&self, nick: Option<&str>) -> (r: String)
        ensures
            match nick {
                Some(n) => r@ == n@,
                None => r@ == self.channel@,
            },
    {
        match nick {
            Some(n) => String::from_str(n),
            None => self.channel.clone(),
        }
    }

    /// The event that an inbound message gives, if any.
    pub fn classify(&self, msg: &InboundMessage) -> (r: Option<PeerEvent>)
        ensures
            match msg.command {
                Command::Privmsg { target, body } => match classify_spec(
                    match msg.sender {
                        Some(s) => Some(s@),
                        None => None,
                    },
                    target@,
                    body@,
                    self.channel@,
                    self.nickname@,
                ) {
                    Some(e) => r matches Some(x) && x@ == e,
                    None => r is None,
                },
                Command::Other => r is None,
            },
    {
        match &msg.command {
            Command::Privmsg { target, body } => {
                let sender = match &msg.sender {
                    Some(s) => s,
                    None => {
                        return None;
                    },
                };
                let upd = match decode_msg(body.as_str()) {
                    Some(u) => u,
                    None => {
                        return None;
                    },
                };
                if target.eq(&self.channel) {
                    Some(PeerEvent::Request(sender.clone(), upd))
                } else if target.eq(&self.nickname) {
                    Some(PeerEvent::Response(upd))
                } else {
                    None
                }
            },
            Command::Other => None,
        }
    }
}

} // verus!
