use vyse::forwarding::{classify_stream, tunneled_method, tunneled_request, udp_bind_address, StreamKind};
use vyse::frame::{read_msg_len, write_msg, FrameError, MAX_CONTROL_MESSAGE};
use vyse::octets::{push_be, read_be};
use vyse::stream::{read_port_header, write_port_header};
use vyse::udp::{
    decode_h3_udp_datagram, decode_tunnel_datagram, encode_h3_udp_datagram, encode_tunnel_datagram,
    is_allowed_masque_host, masque_udp_url, parse_masque_udp_path, percent_decode,
    read_udp_open_after_magic, relay_at_cli, relay_at_edge, relay_to_client, relay_to_tunnel, session_answer, write_udp_open, MasqueError, RelayAction,
    RelayEvent,
    UDP_ERROR, UDP_OPEN_MAGIC, UDP_READY,
};
use vyse::varint::{decode_varint, encode_varint, VarintError};

#[test]
fn roundtrip_small_and_large() {
    for value in [0u64, 63, 64, 16383, 16384, 1_000_000] {
        let encoded = encode_varint(Vec::new(), value).unwrap();
        let (decoded, n) = decode_varint(&encoded).unwrap();
        assert_eq!(decoded, value);
        assert_eq!(n, encoded.len());
    }
}

#[test]
fn varint_examples_of_the_rfc() {
    assert_eq!(encode_varint(Vec::new(), 37).unwrap(), vec![0x25]);
    assert_eq!(encode_varint(Vec::new(), 15293).unwrap(), vec![0x7b, 0xbd]);
    assert_eq!(encode_varint(Vec::new(), 494878333).unwrap(), vec![0x9d, 0x7f, 0x3e, 0x7d]);
    assert_eq!(
        encode_varint(Vec::new(), 151288809941952652).unwrap(),
        vec![0xc2, 0x19, 0x7c, 0x5e, 0xff, 0x14, 0xe8, 0x8c]
    );
    assert_eq!(decode_varint(&[0x40, 0x25]).unwrap(), (37, 2));
}

#[test]
fn varint_limits_and_faults() {
    let largest = 0x3fff_ffff_ffff_ffffu64;
    let encoded = encode_varint(vec![9], largest).unwrap();
    assert_eq!(encoded[0], 9);
    assert_eq!(decode_varint(&encoded[1..]).unwrap(), (largest, 8));
    assert_eq!(
        encode_varint(Vec::new(), largest + 1),
        Err(VarintError::TooLarge { value: largest + 1 })
    );
    assert_eq!(decode_varint(&[]), Err(VarintError::Empty));
    assert_eq!(decode_varint(&[0x80, 1, 2]), Err(VarintError::Truncated { width: 4 }));
}

#[test]
fn big_endian_numbers() {
    let mut out = vec![1u8];
    push_be(&mut out, 0x1234, 4);
    assert_eq!(out, vec![1, 0, 0, 0x12, 0x34]);
    assert_eq!(read_be(&out[1..]), 0x1234);
}

#[test]
fn tunnel_datagram_roundtrip() {
    let encoded = encode_tunnel_datagram(42, b"hi");
    let (id, payload) = decode_tunnel_datagram(&encoded).unwrap();
    assert_eq!(id, 42);
    assert_eq!(payload, b"hi");
}

#[test]
fn tunnel_datagram_bytes() {
    assert_eq!(&encode_tunnel_datagram(0x01020304, b"x")[..], &[1, 2, 3, 4, b'x']);
    assert_eq!(decode_tunnel_datagram(&[0, 0, 1]), None);
    assert_eq!(decode_tunnel_datagram(&[0, 0, 1, 0]), Some((256, &[][..])));
}

#[test]
fn h3_datagram_roundtrip() {
    let encoded = encode_h3_udp_datagram(3, b"pkt").unwrap();
    let (quarter, payload) = decode_h3_udp_datagram(&encoded).unwrap();
    assert_eq!(quarter, 3);
    assert_eq!(payload, b"pkt");
}

#[test]
fn h3_datagram_faults() {
    assert_eq!(&encode_h3_udp_datagram(3, b"pkt").unwrap()[..], &[3, 0, b'p', b'k', b't']);
    assert_eq!(
        encode_h3_udp_datagram(1 << 62, b"pkt"),
        Err(VarintError::TooLarge { value: 1 << 62 })
    );
    assert_eq!(decode_h3_udp_datagram(&[]), None);
    assert_eq!(decode_h3_udp_datagram(&[3]), None);
    assert_eq!(decode_h3_udp_datagram(&[3, 1, 7]), None);
    assert_eq!(decode_h3_udp_datagram(&[3, 0]), Some((3, &[][..])));
}

#[test]
fn datagrams_that_do_not_fit_are_dropped() {
    assert_eq!(&relay_to_tunnel(7, b"abc", Some(7)).unwrap()[..], &[0, 0, 0, 7, b'a', b'b', b'c']);
    assert!(relay_to_tunnel(7, b"abc", Some(6)).is_none());
    assert!(relay_to_tunnel(7, b"abc", None).is_some());
    assert_eq!(&relay_to_client(1, b"abc", Some(5)).unwrap()[..], &[1, 0, b'a', b'b', b'c']);
    assert!(relay_to_client(1, b"abc", Some(4)).is_none());
    assert!(relay_to_client(1 << 62, b"abc", None).is_none());
}

#[test]
fn udp_open_bytes_and_back() {
    let open = write_udp_open(5353, 0x01020304);
    assert_eq!(open, vec![b'V', b'U', b'0', b'1', 0x14, 0xe9, 1, 2, 3, 4]);
    assert_eq!(&open[..4], &UDP_OPEN_MAGIC);
    assert_eq!(read_udp_open_after_magic(&open[4..]), Some((5353, 0x01020304)));
    assert_eq!(read_udp_open_after_magic(&open[5..]), None);
    assert_eq!(session_answer(UDP_READY), Ok(()));
    assert_eq!(
        session_answer(UDP_ERROR),
        Err("CLI could not open a UDP socket".to_string())
    );
}

#[test]
fn port_header_roundtrip() {
    let header = write_port_header(8080);
    assert_eq!(header, vec![0x1f, 0x90]);
    assert_eq!(read_port_header(&header), Some(8080));
    assert_eq!(read_port_header(&header[1..]), None);
}

#[test]
fn frames_announce_their_length() {
    let frame = write_msg(b"{\"type\":\"ping\"}").unwrap();
    assert_eq!(&frame[..4], &[0, 0, 0, 15]);
    assert_eq!(&frame[4..], b"{\"type\":\"ping\"}");
    assert_eq!(read_msg_len(&frame[..4]), Ok(15));
}

#[test]
fn frames_refuse_bad_lengths() {
    assert!(write_msg(&vec![b'x'; MAX_CONTROL_MESSAGE]).is_ok());
    let err = write_msg(&vec![b'x'; MAX_CONTROL_MESSAGE + 1]).unwrap_err();
    assert_eq!(err, FrameError::TooLarge);
    assert_eq!(err.message(), "control message too large");
    assert_eq!(read_msg_len(&[0, 1, 0, 0]), Ok(65536));
    let err = read_msg_len(&[0, 1, 0, 1]).unwrap_err();
    assert_eq!(err, FrameError::InvalidLength(65537));
    assert_eq!(err.message(), "invalid control message length 65537");
    assert_eq!(read_msg_len(&[0, 0, 0, 0]), Err(FrameError::InvalidLength(0)));
    let err = read_msg_len(&[0, 0, 0]).unwrap_err();
    assert_eq!(err, FrameError::NoLength);
    assert_eq!(err.message(), "read control message length");
}

#[test]
fn parse_standard_masque_path() {
    let (host, port) = parse_masque_udp_path("/.well-known/masque/udp/127.0.0.1/5353/").unwrap();
    assert_eq!(host, "127.0.0.1");
    assert_eq!(port, 5353);
}

#[test]
fn parse_percent_encoded_v6() {
    let (host, port) = parse_masque_udp_path("/.well-known/masque/udp/%3A%3A1/53").unwrap();
    assert_eq!(host, "::1");
    assert_eq!(port, 53);
}

#[test]
fn rejects_unknown_path() {
    assert!(parse_masque_udp_path("/hook").is_err());
}

#[test]
fn masque_paths_that_name_no_target() {
    let cases = [
        ("/hook", MasqueError::NotMasque, "not a MASQUE UDP path"),
        ("/.well-known/masque/udp/5353/", MasqueError::MissingPort, "missing MASQUE target port"),
        ("/.well-known/masque/udp/%4/53", MasqueError::TruncatedPercent, "truncated percent-encoding"),
        ("/.well-known/masque/udp/%zz/53", MasqueError::InvalidPercent, "invalid percent-encoding"),
        ("/.well-known/masque/udp/%ff/53", MasqueError::NotUtf8, "MASQUE host is not UTF-8"),
        ("/.well-known/masque/udp/h/65536", MasqueError::InvalidPort, "invalid MASQUE target port"),
        ("/.well-known/masque/udp/%zz/x", MasqueError::InvalidPercent, "invalid percent-encoding"),
    ];
    for (path, error, message) in cases {
        let err = parse_masque_udp_path(path).unwrap_err();
        assert_eq!(err, error, "{path}");
        assert_eq!(err.message(), message);
    }
}

#[test]
fn masque_path_without_query_or_slashes() {
    assert_eq!(
        parse_masque_udp_path("/.well-known/masque/udp/localhost/53///?x=/1/").unwrap(),
        ("localhost".to_string(), 53)
    );
    assert_eq!(
        parse_masque_udp_path("/.well-known/masque/udp/a/b/53").unwrap(),
        ("a/b".to_string(), 53)
    );
}

#[test]
fn percent_decoding() {
    assert_eq!(percent_decode("caf%C3%a9"), Ok("café".to_string()));
    assert_eq!(percent_decode("%41%42"), Ok("AB".to_string()));
    assert_eq!(percent_decode(""), Ok(String::new()));
    assert_eq!(percent_decode("100%"), Err(MasqueError::TruncatedPercent));
}

#[test]
fn allows_only_loopback_hosts() {
    assert!(is_allowed_masque_host("127.0.0.1"));
    assert!(is_allowed_masque_host("localhost"));
    assert!(is_allowed_masque_host("::1"));
    assert!(!is_allowed_masque_host("8.8.8.8"));
    assert!(!is_allowed_masque_host("example.com"));
}

#[test]
fn allows_bracketed_loopback() {
    assert!(is_allowed_masque_host("[::1]"));
    assert!(!is_allowed_masque_host("LOCALHOST"));
}

#[test]
fn masque_url_names_its_port() {
    let url = masque_udp_url("https://my-app.localhost/", 5353);
    assert_eq!(url, "https://my-app.localhost/.well-known/masque/udp/127.0.0.1/5353/");
    let path = url.strip_prefix("https://my-app.localhost").unwrap();
    let (host, port) = parse_masque_udp_path(path).unwrap();
    assert!(is_allowed_masque_host(&host));
    assert_eq!(port, 5353);
}

#[test]
fn streams_are_told_apart() {
    assert!(matches!(classify_stream(b"VU01"), Some(StreamKind::Udp)));
    match classify_stream(&[0x1f, 0x90, b'G', b'E']).unwrap() {
        StreamKind::Http { port, start } => {
            assert_eq!(port, 8080);
            let request = tunneled_request(start, b"T / HTTP/1.1\r\n\r\n");
            assert_eq!(request, b"GET / HTTP/1.1\r\n\r\n");
            assert_eq!(tunneled_method(&request), "GET");
        }
        StreamKind::Udp => panic!("not a UDP session"),
    }
    assert!(classify_stream(b"VU0").is_none());
    assert_eq!(tunneled_method(b"HEAD / HTTP/1.1\r\n\r\n"), "HEAD");
    assert_eq!(tunneled_method(b"\x00\x01"), "GET");
}

#[test]
fn udp_is_sent_from_loopback() {
    assert_eq!(udp_bind_address(true), "[::1]:0");
    assert_eq!(udp_bind_address(false), "127.0.0.1:0");
}

#[test]
fn roundtrip_register() {
    let text = |s: &str| serde_json::Value::String(s.to_string());
    let mut route = serde_json::Map::new();
    route.insert("path_prefix".to_string(), text("/"));
    route.insert("port".to_string(), serde_json::Value::from(3000));
    let mut register = serde_json::Map::new();
    register.insert("type".to_string(), text("register"));
    register.insert("subdomain".to_string(), text("demo"));
    register.insert(
        "routes".to_string(),
        serde_json::Value::Array(vec![serde_json::Value::Object(route)]),
    );
    register.insert("machine_id".to_string(), text("hw-test"));
    register.insert("udp_ports".to_string(), serde_json::Value::Array(Vec::new()));
    let sent = serde_json::Value::Object(register);

    let frame = write_msg(&serde_json::to_vec(&sent).unwrap()).unwrap();
    let len = read_msg_len(&frame[..4]).unwrap();
    assert_eq!(frame.len(), 4 + len);
    let decoded: serde_json::Value = serde_json::from_slice(&frame[4..]).unwrap();
    assert_eq!(sent, decoded);
}

#[test]
fn requests_for_any_port_are_read_back() {
    for port in [0u16, 80, 22101, 65535] {
        let mut stream = write_port_header(port);
        stream.extend_from_slice(b"GET / HTTP/1.1\r\n\r\n");
        match classify_stream(&stream[..4]).unwrap() {
            StreamKind::Http { port: p, start } => {
                assert_eq!(p, port);
                assert_eq!(tunneled_request(start, &stream[4..]), &stream[2..]);
            }
            StreamKind::Udp => panic!("not a UDP session"),
        }
    }
    let mut odd = write_port_header(22101);
    odd.extend_from_slice(b"01");
    assert!(matches!(classify_stream(&odd), Some(StreamKind::Udp)));
}

#[test]
fn sessions_at_the_cli() {
    let at = |event, max| relay_at_cli(7, event, max);
    assert!(matches!(at(RelayEvent::FromTunnel(Some(b"in")), None), RelayAction::ToService));
    match at(RelayEvent::FromOutside(Some(b"out")), Some(7)) {
        RelayAction::ToTunnel(framed) => assert_eq!(&framed[..], &[0, 0, 0, 7, b'o', b'u', b't']),
        _ => panic!("the payload fits"),
    }
    assert!(matches!(at(RelayEvent::FromOutside(Some(b"out")), Some(6)), RelayAction::Wait));
    assert!(matches!(at(RelayEvent::Stream { open: true }, None), RelayAction::Wait));
    assert!(matches!(at(RelayEvent::Stream { open: false }, None), RelayAction::Stop));
    assert!(matches!(at(RelayEvent::FromTunnel(None), None), RelayAction::Stop));
    assert!(matches!(at(RelayEvent::FromOutside(None), None), RelayAction::Stop));
}

#[test]
fn sessions_at_the_edge() {
    let at = |event, max| relay_at_edge(7, 3, event, max, max);
    match at(RelayEvent::FromOutside(Some(b"up")), Some(6)) {
        RelayAction::ToTunnel(framed) => assert_eq!(&framed[..], &[0, 0, 0, 7, b'u', b'p']),
        _ => panic!("the payload fits"),
    }
    match at(RelayEvent::FromTunnel(Some(b"down")), Some(6)) {
        RelayAction::ToClient(framed) => assert_eq!(&framed[..], &[3, 0, b'd', b'o', b'w', b'n']),
        _ => panic!("the payload fits"),
    }
    assert!(matches!(at(RelayEvent::FromOutside(Some(b"up")), Some(5)), RelayAction::Wait));
    assert!(matches!(at(RelayEvent::FromTunnel(Some(b"down")), Some(5)), RelayAction::Wait));
    assert!(matches!(at(RelayEvent::Stream { open: true }, None), RelayAction::Wait));
    assert!(matches!(at(RelayEvent::Stream { open: false }, None), RelayAction::Stop));
    assert!(matches!(at(RelayEvent::FromTunnel(None), None), RelayAction::Stop));
}
