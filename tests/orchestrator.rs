use std::collections::HashMap;
use wg_disco::discover::FakeDiscover;
use wg_disco::orchestrator::{Action, Reconciler};
use wg_disco::signaling::irc::PeerEvent;
use wg_disco::signaling::PeerUpdate;
use wg_disco::wg::config::WgConfig;
use wg_disco::wg::{Endpoint, IpAddr, Key, SocketAddr};

fn config(listen_port: bool) -> WgConfig {
    let text = if listen_port { "[Interface]\nListenPort = 51820\n" } else { "[Interface]\n" };
    WgConfig::parse_config(text).unwrap()
}

fn apply(state: &mut HashMap<Key, Endpoint>, actions: &[Action]) -> usize {
    let mut replies = 0;
    for a in actions {
        match a {
            Action::SetPeerEndpoint(k, e) => {
                state.insert(*k, e.clone());
            }
            Action::Announce { target: Some(_), .. } => replies += 1,
            _ => {}
        }
    }
    replies
}

#[test]
fn bootstrap_with_fake_discovery() {
    let (endpoint, port) = FakeDiscover.discover().unwrap();
    let own = Key([1u8; 32]);
    let (rec, actions) = Reconciler::bootstrap(&config(false), own, (endpoint, port));
    let expected_endpoint = SocketAddr { ip: IpAddr::V4([127, 0, 0, 1]), port: 51039 };
    assert_eq!(rec.endpoint, expected_endpoint);
    assert_eq!(
        actions,
        vec![
            Action::SetListenPort(51039),
            Action::Announce {
                update: PeerUpdate { key: own, endpoint: expected_endpoint, advertise_routes: vec![] },
                target: None,
            },
        ]
    );
}

#[test]
fn bootstrap_keeps_configured_port() {
    let (endpoint, port) = FakeDiscover.discover().unwrap();
    let (_, actions) = Reconciler::bootstrap(&config(true), Key([1u8; 32]), (endpoint, port));
    assert_eq!(actions.len(), 1);
    assert!(matches!(actions[0], Action::Announce { target: None, .. }));
}

#[test]
fn request_twice_is_idempotent() {
    let rec = Reconciler {
        own_key: Key([1u8; 32]),
        endpoint: SocketAddr { ip: IpAddr::V4([198, 51, 100, 7]), port: 4000 },
    };
    let peer = PeerUpdate {
        key: Key([2u8; 32]),
        endpoint: SocketAddr { ip: IpAddr::V4([203, 0, 113, 9]), port: 5000 },
        advertise_routes: vec![],
    };
    let ev = PeerEvent::Request("peer-handle".to_string(), peer.clone());
    let mut state = HashMap::new();
    let first = rec.handle_event(&ev);
    assert_eq!(apply(&mut state, &first), 1);
    let after_first = state.clone();
    let second = rec.handle_event(&ev);
    assert_eq!(apply(&mut state, &second), 1);
    assert_eq!(state, after_first);
    assert_eq!(state.get(&Key([2u8; 32])), Some(&Endpoint::Ip(peer.endpoint)));
    assert_eq!(
        first[1],
        Action::Announce { update: rec.own_update(), target: Some("peer-handle".to_string()) }
    );
}

#[test]
fn response_is_applied_without_reply() {
    let rec = Reconciler {
        own_key: Key([1u8; 32]),
        endpoint: SocketAddr { ip: IpAddr::V4([198, 51, 100, 7]), port: 4000 },
    };
    let peer = PeerUpdate {
        key: Key([4u8; 32]),
        endpoint: SocketAddr { ip: IpAddr::V4([192, 0, 2, 1]), port: 6000 },
        advertise_routes: vec![],
    };
    let actions = rec.handle_event(&PeerEvent::Response(peer.clone()));
    assert_eq!(actions, vec![Action::SetPeerEndpoint(peer.key, Endpoint::Ip(peer.endpoint))]);
}
