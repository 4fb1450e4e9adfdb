//! The reconciliation state machine. The caller runs the loop: it performs
//! each action that this module decides on and hands back each event that
//! the rendezvous channel delivers.

use crate::signaling::irc::{EventView, PeerEvent};
use crate::signaling::{PeerUpdate, UpdateView};
use crate::wg::config::WgConfig;
use crate::wg::{Endpoint, EndpointView, Key, SocketAddr};
use vstd::prelude::*;

verus! {

/// A step for the caller to perform against the control surface or the
/// rendezvous channel.
#[derive(Debug, Clone, PartialEq, Eq)]
pub enum Action {
    /// Set the interface's listen port.
    SetListenPort(u16),
    /// Announce an update: to the named handle, or else to the shared channel.
    Announce { update: PeerUpdate, target: Option<String> },
    /// Set a peer's endpoint.
    SetPeerEndpoint(Key, Endpoint),
}

/// An action over plain values.
pub ghost enum ActionView {
    SetListenPort(u16),
    Announce(UpdateView, Option<Seq<char>>),
    SetPeerEndpoint(Seq<u8>, EndpointView),
}

impl View for Action {
    type V = ActionView;

    open spec fn view(&self) -> ActionView {
        match self {
            Action::SetListenPort(p) => ActionView::SetListenPort(*p),
            Action::Announce { update, target } => ActionView::Announce(
                update@,
                match target {
                    Some(t) => Some(t@),
                    None => None,
                },
            ),
            Action::SetPeerEndpoint(k, e) => ActionView::SetPeerEndpoint(k@, e@),
        }
    }
}

/// The node's own update: its key, its discovered address and no routes.
pub open spec fn own_update_of(key: Seq<u8>, endpoint: (Seq<u8>, u16)) -> UpdateView {
    UpdateView { key, endpoint, routes: Seq::empty() }
}

/// The actions of the start: the discovered local port is pushed to the
/// interface when the configuration sets no listen port, then the node's
/// own update is broadcast.
pub open spec fn bootstrap_actions(
    has_listen_port: bool,
    key: Seq<u8>,
    endpoint: (Seq<u8>, u16),
    local_port: u16,
) -> Seq<ActionView> {
    let announce = seq![ActionView::Announce(own_update_of(key, endpoint), None)];
    if has_listen_port {
        announce
    } else {
        seq![ActionView::SetListenPort(local_port)] + announce
    }
}

/// Sets the endpoint that an update carries for the key it carries.
pub open spec fn upsert_of(u: UpdateView) -> ActionView {
    ActionView::SetPeerEndpoint(u.key, EndpointView::Ip(u.endpoint.0, u.endpoint.1))
}

/// The actions for one event: a request is applied and answered directly
/// with the node's own update; a response is applied only.
pub open spec fn event_actions(key: Seq<u8>, endpoint: (Seq<u8>, u16), e: EventView) -> Seq<
    ActionView,
> {
    match e {
        EventView::Request(sender, u) => seq![
            upsert_of(u),
            ActionView::Announce(own_update_of(key, endpoint), Some(sender)),
        ],
        EventView::Response(u) => seq![upsert_of(u)],
    }
}

/// The peers' endpoints at the control surface after one action.
pub open spec fn apply_action(s: Map<Seq<u8>, EndpointView>, a: ActionView) -> Map<
    Seq<u8>,
    EndpointView,
> {
    match a {
        ActionView::SetPeerEndpoint(k, e) => s.insert(k, e),
        _ => s,
    }
}

/// The peers' endpoints after the actions, in order.
pub open spec fn apply_actions(s: Map<Seq<u8>, EndpointView>, acts: Seq<ActionView>) -> Map<
    Seq<u8>,
    EndpointView,
>
    decreases acts.len(),
{
    if acts.len() == 0 {
        s
    } else {
        apply_actions(apply_action(s, acts[0]), acts.drop_first())
    }
}

/// The number of directed announcements among the actions.
pub open spec fn replies(acts: Seq<ActionView>) -> nat
    decreases acts.len(),
{
    if acts.len() == 0 {
        0
    } else {
        (if acts[0] matches ActionView::Announce(_, Some(_)) { 1nat } else { 0nat }) + replies(
            acts.drop_first(),
        )
    }
}

/// A request delivered twice is answered once per delivery, and the
/// second delivery leaves the peers' endpoints as the first left them.
pub proof fn lemma_request_idempotent(
    key: Seq<u8>,
    endpoint: (Seq<u8>, u16),
    sender: Seq<char>,
    u: UpdateView,
    s: Map<Seq<u8>, EndpointView>,
)
    ensures
        replies(event_actions(key, endpoint, EventView::Request(sender, u))) == 1,
        apply_actions(
            apply_actions(s, event_actions(key, endpoint, EventView::Request(sender, u))),
            event_actions(key, endpoint, EventView::Request(sender, u)),
        ) == apply_actions(s, event_actions(key, endpoint, EventView::Request(sender, u))),
{
    let acts = event_actions(key, endpoint, EventView::Request(sender, u));
    let e = EndpointView::Ip(u.endpoint.0, u.endpoint.1);
    assert(acts.drop_first().drop_first() =~= Seq::<ActionView>::empty());
    assert(replies(acts.drop_first().drop_first()) == 0);
    assert(replies(acts.drop_first()) == 1);
    reveal_with_fuel(apply_actions, 3);
    assert(acts[0] == upsert_of(u));
    assert(acts.drop_first()[0] == acts[1]);
    assert(apply_actions(s, acts) == s.insert(u.key, e));
    assert(apply_actions(s.insert(u.key, e), acts) == s.insert(u.key, e).insert(u.key, e));
    assert(s.insert(u.key, e).insert(u.key, e) =~= s.insert(u.key, e));
}

/// The state of a running node: its key and its discovered address.
#[derive(Debug, Clone, Copy, PartialEq, Eq)]
pub struct Reconciler {
    pub own_key: Key,
    pub endpoint: SocketAddr,
}

impl Reconciler {
    /// The node's own update.
    pub fn own_update(&self) -> (r: PeerUpdate)
        ensures
            r@ == own_update_of(self.own_key@, (self.endpoint.ip@, self.endpoint.port)),
    {
        let r = PeerUpdate { key: self.own_key, endpoint: self.endpoint, advertise_routes: Vec::new() };
        assert(r@.routes =~= Seq::<(Seq<u8>, nat)>::empty());
        r
    }

    /// The state after discovery, and the actions that start the node.
    pub fn bootstrap(config: &WgConfig, own_key: Key, discovered: (SocketAddr, u16)) -> (r: (
        Reconciler,
        Vec<Action>,
    ))
        ensures
            r.0.own_key == own_key,
            r.0.endpoint == discovered.0,
            r.1@.map_values(|a: Action| a@) == bootstrap_actions(
                config.interface.listen_port is Some,
                own_key@,
                (discovered.0.ip@, discovered.0.port),
                discovered.1,
            ),
    {
        let rec = Reconciler { own_key, endpoint: discovered.0 };
        let mut acts: Vec<Action> = Vec::new();
        if config.interface.listen_port.is_none() {
            acts.push(Action::SetListenPort(discovered.1));
        }
        acts.push(Action::Announce { update: rec.own_update(), target: None });
        assert(acts@.map_values(|a: Action| a@) =~= bootstrap_actions(
            config.interface.listen_port is Some,
            own_key@,
            (discovered.0.ip@, discovered.0.port),
            discovered.1,
        ));
        (rec, acts)
    }

    /// The actions for one inbound event.
    pub fn handle_event(&self, ev: &PeerEvent) -> (r: Vec<Action>)
        ensures
            r@.map_values(|a: Action| a@) == event_actions(
                self.own_key@,
                (self.endpoint.ip@, self.endpoint.port),
                ev@,
            ),
    {
        let mut acts: Vec<Action> = Vec::new();
        match ev {
            PeerEvent::Request(sender, u) => {
                acts.push(Action::SetPeerEndpoint(u.key, Endpoint::Ip(u.endpoint)));
                acts.push(
                    Action::Announce { update: self.own_update(), target: Some(sender.clone()) },
                );
            },
            PeerEvent::Response(u) => {
                acts.push(Action::SetPeerEndpoint(u.key, Endpoint::Ip(u.endpoint)));
            },
        }
        assert(acts@.map_values(|a: Action| a@) =~= event_actions(
            self.own_key@,
            (self.endpoint.ip@, self.endpoint.port),
            ev@,
        ));
        acts
    }
}

} // verus!
