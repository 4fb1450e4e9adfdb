use wg_disco::wg::config::{until, ParseError, WgConfig, WgConfigInterface, WgConfigPeer};
use wg_disco::wg::peer::WgPeerInfo;
use wg_disco::wg::{Cidr, Endpoint, IpAddr, Key, SocketAddr};

fn v4(a: u8, b: u8, c: u8, d: u8, mask: u8) -> Cidr {
    Cidr { ip: IpAddr::V4([a, b, c, d]), mask }
}

#[test]
fn test_parse_config() {
    let priv_key = Key::random();
    let srv_key = Key::random();
    let tag_key = Key::random();
    let phone_key = Key::random();
    let kvm_key = Key::random();

    let cfg = format!(
        "[Interface]
PrivateKey = {}
Address = 100.64.0.2/24
ListenPort = 51822
PostUp = iptables -A FORWARD -i %i -j ACCEPT; iptables -t nat -A POSTROUTING -o tun0 -j MASQUERADE
PostDown = iptables -D FORWARD -i %i -j ACCEPT; iptables -t nat -D POSTROUTING -o tun0 -j MASQUERADE

[Peer] # Server
PublicKey = {}
Endpoint = example.com:51821
AllowedIPs = 100.64.0.1, 192.168.0.0/24, 192.168.1.1
PersistentKeepalive = 25

[Peer] # Laptop
PublicKey = {}
AllowedIPs = 100.64.0.3
PersistentKeepalive = 25

[Peer] # Phone
PublicKey = {}
AllowedIPs = 100.64.0.4
PersistentKeepalive = 25

[Peer] # NanoKVM
PublicKey = {}
AllowedIPs = 100.64.0.100
PersistentKeepalive = 25",
        priv_key.to_base64(),
        srv_key.to_base64(),
        tag_key.to_base64(),
        phone_key.to_base64(),
        kvm_key.to_base64(),
    );

    let cfg = WgConfig::parse_config(cfg.as_str()).unwrap();

    assert_eq!(
        cfg,
        WgConfig {
            interface: WgConfigInterface {
                private_key: priv_key,
                address: v4(100, 64, 0, 2, 24),
                listen_port: Some(51822),
                mtu: None,
                dns: None,
                table: None,
                fwmark: None,
                pre_up: None,
                pre_down: None,
                post_up: Some("iptables -A FORWARD -i %i -j ACCEPT; iptables -t nat -A POSTROUTING -o tun0 -j MASQUERADE".to_string()),
                post_down: Some("iptables -D FORWARD -i %i -j ACCEPT; iptables -t nat -D POSTROUTING -o tun0 -j MASQUERADE".to_string()),
                save_config: None,
                advertise_routes: None
            },
            peers: vec![
                WgConfigPeer {
                    public_key: srv_key,
                    preshared_key: None,
                    endpoint: Some(Endpoint::Domain("example.com:51821".to_string())),
                    allowed_ips: Some(vec![
                        v4(100, 64, 0, 1, 32),
                        v4(192, 168, 0, 0, 24),
                        v4(192, 168, 1, 1, 32),
                    ]),
                    persistent_keepalive: Some(25),
                },
                WgConfigPeer {
                    public_key: tag_key,
                    preshared_key: None,
                    endpoint: None,
                    allowed_ips: Some(vec![v4(100, 64, 0, 3, 32)]),
                    persistent_keepalive: Some(25),
                },
                WgConfigPeer {
                    public_key: phone_key,
                    preshared_key: None,
                    endpoint: None,
                    allowed_ips: Some(vec![v4(100, 64, 0, 4, 32)]),
                    persistent_keepalive: Some(25),
                },
                WgConfigPeer {
                    public_key: kvm_key,
                    preshared_key: None,
                    endpoint: None,
                    allowed_ips: Some(vec![v4(100, 64, 0, 100, 32)]),
                    persistent_keepalive: Some(25),
                },
            ]
        }
    )
}

#[test]
fn minimal_config_scenario() {
    let k1 = Key([1u8; 32]);
    let k2 = Key([2u8; 32]);
    let text = format!(
        "[Interface]\nPrivateKey = {}\nAddress = 10.0.0.1/24\n[Peer]\nPublicKey = {}\nAllowedIPs = 10.0.0.2\n",
        k1.to_base64(),
        k2.to_base64()
    );
    let cfg = WgConfig::parse_config(text.as_str()).unwrap();
    assert_eq!(cfg.interface.private_key, k1);
    assert_eq!(cfg.interface.address, v4(10, 0, 0, 1, 24));
    assert_eq!(cfg.peers.len(), 1);
    assert_eq!(cfg.peers[0].public_key, k2);
    assert_eq!(cfg.peers[0].allowed_ips, Some(vec![v4(10, 0, 0, 2, 32)]));
    assert_eq!(cfg.peers[0].endpoint, None);
}

#[test]
fn peer_count_and_order() {
    let keys: Vec<Key> = (0u8..5).map(|i| Key([i; 32])).collect();
    let mut text = String::from("[Interface]\nAddress = 10.0.0.1/24\nUnknownField = whatever\n");
    for k in &keys {
        text.push_str(&format!("[Peer]\nPublicKey = {}\nSomethingElse = 1\n", k.to_base64()));
    }
    let cfg = WgConfig::parse_config(text.as_str()).unwrap();
    assert_eq!(cfg.peers.len(), 5);
    for (p, k) in cfg.peers.iter().zip(keys.iter()) {
        assert_eq!(&p.public_key, k);
    }
    let empty = WgConfig::parse_config("[Interface]\n").unwrap();
    assert_eq!(empty.peers.len(), 0);
    assert_eq!(empty.interface.private_key, Key([0u8; 32]));
    assert_eq!(empty.interface.address, v4(0, 0, 0, 0, 0));
}

#[test]
fn every_interface_field() {
    let k = Key([7u8; 32]);
    let text = format!(
        "[Interface]\nPrivateKey = {}\nAddress = 10.1.2.3\nListenPort = 51820\nMTU = 1420\nDNS = 1.1.1.1, 8.8.8.8\nTable = 1234\nFwmark = 51\nAdvertiseRoutes = 10.0.0.0/8,192.168.0.0/16\nPreUp = a b\nPreDown = c\nPostUp = d # not a comment\nPostDown = e\nSaveConfig = true\n",
        k.to_base64()
    );
    let i = WgConfig::parse_config(text.as_str()).unwrap().interface;
    assert_eq!(i.private_key, k);
    assert_eq!(i.address, v4(10, 1, 2, 3, 32));
    assert_eq!(i.listen_port, Some(51820));
    assert_eq!(i.mtu, Some(1420));
    assert_eq!(i.dns, Some(vec![IpAddr::V4([1, 1, 1, 1]), IpAddr::V4([8, 8, 8, 8])]));
    assert_eq!(i.table, Some(1234));
    assert_eq!(i.fwmark, Some(51));
    assert_eq!(i.advertise_routes, Some(vec![v4(10, 0, 0, 0, 8), v4(192, 168, 0, 0, 16)]));
    assert_eq!(i.pre_up, Some("a b".to_string()));
    assert_eq!(i.pre_down, Some("c".to_string()));
    assert_eq!(i.post_up, Some("d # not a comment".to_string()));
    assert_eq!(i.post_down, Some("e".to_string()));
    assert_eq!(i.save_config, Some(true));
}

#[test]
fn peer_fields_and_socket_endpoint() {
    let k = Key([9u8; 32]);
    let psk = Key([3u8; 32]);
    let text = format!(
        "[Peer]\nPublicKey = {}\nPresharedKey = {}\nEndpoint = 203.0.113.5:51820\nPersistentKeepalive = 15\n[Interface]\nListenPort = 1\n",
        k.to_base64(),
        psk.to_base64()
    );
    let cfg = WgConfig::parse_config(text.as_str()).unwrap();
    assert_eq!(cfg.interface.listen_port, Some(1));
    assert_eq!(cfg.peers.len(), 1);
    let p = &cfg.peers[0];
    assert_eq!(p.preshared_key, Some(psk));
    assert_eq!(
        p.endpoint,
        Some(Endpoint::Ip(SocketAddr { ip: IpAddr::V4([203, 0, 113, 5]), port: 51820 }))
    );
    assert_eq!(p.persistent_keepalive, Some(15));
}

#[test]
fn missing_interface_is_rejected() {
    let text = format!("[Peer]\nPublicKey = {}\n", Key([1u8; 32]).to_base64());
    assert_eq!(WgConfig::parse_config(text.as_str()), Err(ParseError::NoInterfaceSection));
    assert_eq!(WgConfig::parse_config(""), Err(ParseError::NoInterfaceSection));
}

#[test]
fn bad_key_length_is_rejected() {
    assert_eq!(
        WgConfig::parse_config("[Interface]\nPrivateKey = AAAA\n"),
        Err(ParseError::KeyParseError)
    );
    assert_eq!(
        WgConfig::parse_config("[Interface]\nPrivateKey = not base64!\n"),
        Err(ParseError::KeyParseError)
    );
}

#[test]
fn malformed_lines_are_rejected() {
    assert_eq!(
        WgConfig::parse_config("[Interface]\nListenPort 5\n"),
        Err(ParseError::Expected('='))
    );
    assert_eq!(
        WgConfig::parse_config("[Interface]\nListenPort = 70000\n"),
        Err(ParseError::ParseIntError)
    );
    assert_eq!(
        WgConfig::parse_config("[Interface]\nAddress = 10.0.0.256/24\n"),
        Err(ParseError::SocketAddrParseError)
    );
    assert_eq!(
        WgConfig::parse_config("[Interface]\nAddress = 10.0.0.1/33\n"),
        Err(ParseError::ParseIntError)
    );
    assert_eq!(
        WgConfig::parse_config("[Interface]\n[Bogus]\n"),
        Err(ParseError::UnexpectedToken)
    );
    assert_eq!(
        WgConfig::parse_config("[Interface]\n[Interface]\n"),
        Err(ParseError::UnexpectedToken)
    );
    assert_eq!(
        WgConfig::parse_config("[Interface]\nDNS = 1.1.1.1, x\n"),
        Err(ParseError::SocketAddrParseError)
    );
}

#[test]
fn text_before_first_section_is_skipped() {
    let cfg = WgConfig::parse_config("# heading\nnot a field\n[Interface]\nMTU = +1280\n").unwrap();
    assert_eq!(cfg.interface.mtu, Some(1280));
}

fn v6(bytes: [u8; 16], mask: u8) -> Cidr {
    Cidr { ip: IpAddr::V6(bytes), mask }
}

#[test]
fn ipv6_ranges_and_endpoints() {
    let text = "[Interface]\nDNS = ::ffff:1.2.3.4, 2001:db8::53\n[Peer]\nAllowedIPs = 0.0.0.0/0, ::/0, fd00::1, 2001:db8:0:0:0:0:0:1/64\nEndpoint = [fe80::1]:51820\n";
    let cfg = WgConfig::parse_config(text).unwrap();
    let mut mapped = [0u8; 16];
    mapped[10] = 0xff;
    mapped[11] = 0xff;
    mapped[12..].copy_from_slice(&[1, 2, 3, 4]);
    let mut dns2 = [0u8; 16];
    dns2[..4].copy_from_slice(&[0x20, 0x01, 0x0d, 0xb8]);
    dns2[15] = 0x53;
    assert_eq!(cfg.interface.dns, Some(vec![IpAddr::V6(mapped), IpAddr::V6(dns2)]));
    let mut fd = [0u8; 16];
    fd[0] = 0xfd;
    fd[15] = 1;
    let mut doc = [0u8; 16];
    doc[..4].copy_from_slice(&[0x20, 0x01, 0x0d, 0xb8]);
    doc[15] = 1;
    assert_eq!(
        cfg.peers[0].allowed_ips,
        Some(vec![v4(0, 0, 0, 0, 0), v6([0u8; 16], 0), v6(fd, 128), v6(doc, 64)])
    );
    let mut ll = [0u8; 16];
    ll[0] = 0xfe;
    ll[1] = 0x80;
    ll[15] = 1;
    assert_eq!(
        cfg.peers[0].endpoint,
        Some(Endpoint::Ip(SocketAddr { ip: IpAddr::V6(ll), port: 51820 }))
    );
}

#[test]
fn malformed_ipv6_is_rejected() {
    for bad in ["1:2:3:4:5:6:7:8:9", "1::2::3", "12345::", "1:::2", "::g", "1:2:3:4:5:6:7"] {
        let text = format!("[Interface]\nAddress = {}\n", bad);
        assert_eq!(
            WgConfig::parse_config(text.as_str()),
            Err(ParseError::SocketAddrParseError),
            "{}",
            bad
        );
    }
    let text = "[Interface]\nAddress = ::1.2.3.4/129\n";
    assert_eq!(WgConfig::parse_config(text), Err(ParseError::ParseIntError));
    let cfg = WgConfig::parse_config("[Interface]\nAddress = ::1.2.3.4\n").unwrap();
    let mut b = [0u8; 16];
    b[12..].copy_from_slice(&[1, 2, 3, 4]);
    assert_eq!(cfg.interface.address, v6(b, 128));
}

#[test]
fn until_reads_to_separator() {
    let v: Vec<char> = "  Key = value ".chars().collect();
    let (a, b, next, found) = until(&v, 0, v.len(), '=');
    assert!(found);
    assert_eq!(v[a..b].iter().collect::<String>(), "Key");
    assert_eq!(next, 7);
    let (a, b, next, found) = until(&v, 0, v.len(), '#');
    assert!(!found);
    assert_eq!(v[a..b].iter().collect::<String>(), "Key = value");
    assert_eq!(next, v.len());
}

#[test]
fn peer_info_from_config() {
    let p = WgConfigPeer {
        public_key: Key([1u8; 32]),
        preshared_key: None,
        endpoint: Some(Endpoint::Domain("host:1".to_string())),
        allowed_ips: Some(vec![v4(10, 0, 0, 1, 32)]),
        persistent_keepalive: Some(25),
    };
    let info = WgPeerInfo::from(p.clone());
    assert_eq!(info.public_key, p.public_key);
    assert_eq!(info.endpoint, p.endpoint);
    assert_eq!(info.allowed_ips, p.allowed_ips);
    assert_eq!(info.persistent_keepalive, Some(25));
    assert_eq!(info.latest_handshake, None);
    assert_eq!(info.transfer, None);
}
