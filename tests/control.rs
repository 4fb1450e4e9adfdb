use wg_disco::args::Args;
use wg_disco::wg::cmd::WgCmdBackend;
use wg_disco::wg::config::ParseError;
use wg_disco::wg::{Cidr, IpAddr, Key, Peer, SocketAddr};

#[test]
fn key_text_round_trip() {
    let k = Key([0xABu8; 32]);
    let text = k.to_base64();
    assert_eq!(text.len(), 44);
    assert_ne!(text, "");
    assert_eq!(Key::parse(&text), Ok(k));
    assert_eq!(Key::parse(&text[..40]), Err(ParseError::KeyParseError));
    assert_eq!(Key::default(), Key([0u8; 32]));
    assert_eq!(Cidr::default(), Cidr { ip: IpAddr::V4([0, 0, 0, 0]), mask: 0 });
}

#[test]
fn command_outputs() {
    let k = Key([8u8; 32]);
    assert_eq!(WgCmdBackend::parse_pub_key(&format!("{}\n", k.to_base64())), Ok(k));
    assert_eq!(WgCmdBackend::parse_pub_key("garbage\n"), Err(ParseError::KeyParseError));
    assert_eq!(WgCmdBackend::parse_listen_port("51820\n"), Ok(51820));
    assert_eq!(WgCmdBackend::parse_listen_port("x\n"), Err(ParseError::ParseIntError));
    let k2 = Key([9u8; 32]);
    let table = format!("{}\t1.2.3.4:51820\n{}\t(none)\n", k.to_base64(), k2.to_base64());
    assert_eq!(
        WgCmdBackend::parse_endpoints(&table),
        Ok(vec![
            (k, Some(SocketAddr { ip: IpAddr::V4([1, 2, 3, 4]), port: 51820 })),
            (k2, None),
        ])
    );
    assert_eq!(WgCmdBackend::parse_endpoints("nonsense\n"), Err(ParseError::PeerParseError));
    let _ = WgCmdBackend::new();
}

#[test]
fn peer_entries() {
    let k = Key([6u8; 32]);
    let p = Peer::parse(&format!("{} 10.9.8.7:1234", k.to_base64())).unwrap();
    assert_eq!(p, Peer(k, SocketAddr { ip: IpAddr::V4([10, 9, 8, 7]), port: 1234 }));
    assert_eq!(Peer::parse("nospace"), Err(ParseError::PeerParseError));
    assert_eq!(
        Peer::parse(&format!("{} 10.9.8.7", k.to_base64())),
        Err(ParseError::SocketAddrParseError)
    );
}

#[test]
fn config_path_names_interface() {
    let a = Args { iface: "wg0".to_string() };
    assert_eq!(a.config_path(), "/etc/wireguard/wg0.conf");
}
