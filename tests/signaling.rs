use base64::Engine;
use wg_disco::signaling::irc::{
    decode_msg, encode_msg, handle, Command, InboundMessage, IrcConfig, IrcSession, PeerEvent,
};
use wg_disco::signaling::wire::{decode_update, encode_update};
use wg_disco::signaling::PeerUpdate;
use wg_disco::wg::{Cidr, IpAddr, Key, SocketAddr};

fn update(routes: Vec<Cidr>) -> PeerUpdate {
    PeerUpdate {
        key: Key([5u8; 32]),
        endpoint: SocketAddr { ip: IpAddr::V4([127, 0, 0, 1]), port: 51039 },
        advertise_routes: routes,
    }
}

fn session() -> IrcSession {
    let config = IrcConfig {
        server: "irc.example.net".to_string(),
        port: Some(6667),
        tls: false,
        channel: "#mesh".to_string(),
    };
    IrcSession::new(&config, &Key([1u8; 32]), &vec![Key([2u8; 32]), Key([3u8; 32])])
}

fn privmsg(sender: Option<&str>, target: &str, body: &str) -> InboundMessage {
    InboundMessage {
        sender: sender.map(|s| s.to_string()),
        command: Command::Privmsg { target: target.to_string(), body: body.to_string() },
    }
}

#[test]
fn wire_bytes_are_exact() {
    let u = PeerUpdate {
        key: Key([0u8; 32]),
        endpoint: SocketAddr { ip: IpAddr::V4([127, 0, 0, 1]), port: 51039 },
        advertise_routes: vec![],
    };
    let mut expected = vec![0u8; 32];
    expected.extend_from_slice(&[0, 127, 0, 0, 1, 251, 0xC7, 0x5F, 0]);
    assert_eq!(encode_update(&u), expected);

    let small = PeerUpdate {
        key: Key([0u8; 32]),
        endpoint: SocketAddr { ip: IpAddr::V4([10, 0, 0, 1]), port: 80 },
        advertise_routes: vec![Cidr { ip: IpAddr::V4([10, 0, 0, 0]), mask: 8 }],
    };
    let mut expected = vec![0u8; 32];
    expected.extend_from_slice(&[0, 10, 0, 0, 1, 80, 1, 0, 10, 0, 0, 0, 8]);
    assert_eq!(encode_update(&small), expected);
}

#[test]
fn wire_round_trip() {
    let v6 = Cidr { ip: IpAddr::V6([0xfd, 0, 0, 0, 0, 0, 0, 0, 0, 0, 0, 0, 0, 0, 0, 1]), mask: 64 };
    let v4 = Cidr { ip: IpAddr::V4([192, 168, 1, 0]), mask: 24 };
    for u in [update(vec![]), update(vec![v4]), update(vec![v4, v6, v4])] {
        assert_eq!(decode_update(&encode_update(&u)), Some(u.clone()));
        assert_eq!(decode_msg(&encode_msg(&u)), Some(u));
    }
    let many: Vec<Cidr> = (0..300u32).map(|i| Cidr { ip: IpAddr::V4([10, 0, (i / 256) as u8, i as u8]), mask: 32 }).collect();
    let u = update(many);
    assert_eq!(decode_msg(&encode_msg(&u)), Some(u));
}

#[test]
fn wire_rejects_bad_bytes() {
    let mut bytes = encode_update(&update(vec![]));
    bytes.push(0);
    assert_eq!(decode_update(&bytes), None);
    assert_eq!(decode_update(&vec![0u8; 31]), None);
    let mut bad_family = encode_update(&update(vec![]));
    bad_family[32] = 2;
    assert_eq!(decode_update(&bad_family), None);
    assert_eq!(decode_msg("!!not base64!!"), None);
    assert_eq!(decode_msg(""), None);
}

#[test]
fn message_text_is_unpadded_url_safe_base64() {
    let u = update(vec![]);
    let bytes = encode_update(&u);
    let text = encode_msg(&u);
    assert_eq!(text, base64::engine::general_purpose::URL_SAFE_NO_PAD.encode(&bytes));
    assert!(!text.contains('='));
}

#[test]
fn handle_is_twelve_url_safe_characters() {
    let k = Key([42u8; 32]);
    let h = handle(&k);
    assert_eq!(h.chars().count(), 12);
    assert!(h.chars().all(|c| c.is_ascii_alphanumeric() || c == '-' || c == '_'));
    assert_eq!(h, handle(&k));
    let digest = hashes::sha2::sha256::hash(&k.0).into_bytes();
    let full = base64::engine::general_purpose::URL_SAFE_NO_PAD.encode(digest);
    assert_eq!(h, full[..12].to_string());
    assert_ne!(h, handle(&Key([43u8; 32])));
}

#[test]
fn session_derives_handles() {
    let s = session();
    assert_eq!(s.channel, "#mesh");
    assert_eq!(s.nickname, handle(&Key([1u8; 32])));
    assert_eq!(s.registry.len(), 2);
    assert_eq!(s.registry[0], (handle(&Key([2u8; 32])), Key([2u8; 32])));
    assert_eq!(s.registry[1], (handle(&Key([3u8; 32])), Key([3u8; 32])));
}

#[test]
fn classification_by_target() {
    let s = session();
    let u = update(vec![]);
    let body = encode_msg(&u);
    let channel_msg = privmsg(Some("alice"), "#mesh", &body);
    assert_eq!(s.classify(&channel_msg), Some(PeerEvent::Request("alice".to_string(), u.clone())));
    let direct = privmsg(Some("alice"), &s.nickname.clone(), &body);
    assert_eq!(s.classify(&direct), Some(PeerEvent::Response(u.clone())));
    let garbage = privmsg(Some("alice"), "#mesh", "hello everyone");
    assert_eq!(s.classify(&garbage), None);
    let elsewhere = privmsg(Some("alice"), "#other", &body);
    assert_eq!(s.classify(&elsewhere), None);
    let anonymous = privmsg(None, "#mesh", &body);
    assert_eq!(s.classify(&anonymous), None);
    let other = InboundMessage { sender: Some("server".to_string()), command: Command::Other };
    assert_eq!(s.classify(&other), None);
}

#[test]
fn handles_are_not_proof_of_key_possession() {
    // Any sender may announce any key: the handle it uses is not checked
    // against the key, nor against the configured peers.
    let s = session();
    let victim = update(vec![]);
    let spoofed = privmsg(Some(&handle(&Key([2u8; 32]))), "#mesh", &encode_msg(&victim));
    assert_eq!(
        s.classify(&spoofed),
        Some(PeerEvent::Request(handle(&Key([2u8; 32])), victim.clone()))
    );
    let stranger = privmsg(Some("mallory"), "#mesh", &encode_msg(&victim));
    assert!(matches!(s.classify(&stranger), Some(PeerEvent::Request(_, _))));
}

#[test]
fn announce_goes_to_target_or_channel() {
    let s = session();
    assert_eq!(s.announce_target(Some("bob")), "bob");
    assert_eq!(s.announce_target(None), "#mesh");
}
