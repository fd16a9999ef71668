//! The protocols: requests, answers and the outbounds that speak them.

use aes::cipher::{BlockDecrypt, KeyInit};
use aes_gcm::aead::{Aead, Payload};
use base64::Engine;
use sha2::Digest;

use sockrocket_core::config::{
    Node, ProxyProtocol, ShadowTlsConfig, TlsConfig, TransportConfig, TransportType,
};
use sockrocket_core::net::{ip_string, IpAddr};
use sockrocket_core::proxy::address::unreached_message;
use sockrocket_core::proxy::connector::OutboundKind;
use sockrocket_core::proxy::factory::{create_outbound, create_outbound_unwarmed};
use sockrocket_core::proxy::hysteria2::{
    attempt_pair, build_tcp_request, bytes_needed, judge_auth, judge_response, open_failed,
    push_varint, read_tcp_response, read_varint, ConnectPlan, Hysteria2Outbound, OpenFailure,
    Retries, RetryStep, StreamVerdict, TcpResponse, HY2_MAX_PADDING_LEN, HY2_MAX_TCP_RESPONSE_MSG_LEN,
};
use sockrocket_core::proxy::ss::{normalize_ss_cipher, target_address, SsOutbound, SsTarget};
use sockrocket_core::proxy::trojan::{build_trojan_request, TrojanOutbound};
use sockrocket_core::proxy::vless::{
    build_vless_request, ReadStep as VlessRead, VlessOutbound, VlessStream,
};
use sockrocket_core::proxy::vmess::{
    auth_id_with, build_vmess_header, create_auth_id, fnv1a32, kdf, make_aead_nonce,
    seal_vmess_header, vmess_cmd_key, VMessChunkCipher, VMessOutbound, VMessRequest,
    VMessSecurity,
};

fn node(name: &str, server: &str, port: u16, protocol: ProxyProtocol, tls: bool) -> Node {
    Node {
        name: name.to_string(),
        server: server.to_string(),
        port,
        protocol,
        transport: if tls {
            Some(TransportConfig {
                transport_type: TransportType::Tls,
                tls: Some(TlsConfig {
                    sni: Some(server.to_string()),
                    skip_cert_verify: false,
                    alpn: None,
                    fingerprint: None,
                }),
                ws: None,
                reality: None,
            })
        } else {
            None
        },
        latency_ms: None,
        tags: vec![],
        extra: vec![],
    }
}

// -- Factory -----------------------------------------------------------------

#[test]
fn test_create_vless_outbound() {
    let node = node(
        "test-vless",
        "server.com",
        443,
        ProxyProtocol::VLess {
            uuid: "550e8400-e29b-41d4-a716-446655440000".to_string(),
            flow: None,
            udp: false,
        },
        true,
    );
    let outbound = create_outbound(&node).ok().unwrap();
    assert_eq!(outbound.0.name(), "vless");
}

#[test]
fn test_create_trojan_outbound() {
    let node = node(
        "test-trojan",
        "trojan.server.com",
        443,
        ProxyProtocol::Trojan {
            password: "my_password".to_string(),
            udp: false,
        },
        true,
    );
    let outbound = create_outbound(&node).ok().unwrap();
    assert_eq!(outbound.0.name(), "trojan");
}

#[test]
fn test_create_ss_outbound() {
    let node = node(
        "test-ss",
        "ss.server.com",
        8388,
        ProxyProtocol::Shadowsocks {
            cipher: "aes-256-gcm".to_string(),
            password: "password123".to_string(),
            udp: false,
            shadow_tls: None,
        },
        false,
    );
    let outbound = create_outbound(&node).ok().unwrap();
    assert_eq!(outbound.0.name(), "shadowsocks");
}

#[test]
fn every_protocol_has_an_outbound() {
    let cases = vec![
        (
            ProxyProtocol::VMess {
                uuid: "b831381d-6324-4d53-ad4f-8cda48b30811".to_string(),
                cipher: "auto".to_string(),
                alter_id: 0,
                udp: false,
            },
            "vmess",
        ),
        (
            ProxyProtocol::Shadowsocks {
                cipher: "aes-256-gcm".to_string(),
                password: "x".to_string(),
                udp: false,
                shadow_tls: Some(ShadowTlsConfig {
                    host: "cdn.example.com".to_string(),
                    password: "y".to_string(),
                    skip_cert_verify: false,
                }),
            },
            "shadowsocks+shadow-tls",
        ),
        (
            ProxyProtocol::Tuic {
                uuid: "b831381d-6324-4d53-ad4f-8cda48b30811".to_string(),
                password: "x".to_string(),
                congestion_control: "bbr".to_string(),
                udp: false,
            },
            "tuic",
        ),
        (
            ProxyProtocol::Hysteria2 {
                password: "x".to_string(),
                udp: false,
            },
            "hysteria2",
        ),
    ];
    for (protocol, name) in cases {
        let node = node("n", "server.com", 443, protocol, false);
        assert_eq!(create_outbound(&node).ok().unwrap().0.name(), name);
        assert_eq!(create_outbound_unwarmed(&node).ok().unwrap().0.name(), name);
    }
}

#[test]
fn broken_nodes_have_no_outbound() {
    let bad_uuid = node(
        "n",
        "server.com",
        443,
        ProxyProtocol::VLess {
            uuid: "not-a-uuid".to_string(),
            flow: None,
            udp: false,
        },
        false,
    );
    let message = create_outbound(&bad_uuid).err().unwrap().message();
    assert!(message.starts_with("invalid character"), "got: {}", message);

    let bad_cipher = node(
        "n",
        "server.com",
        443,
        ProxyProtocol::Shadowsocks {
            cipher: "rot13".to_string(),
            password: "x".to_string(),
            udp: false,
            shadow_tls: None,
        },
        false,
    );
    let message = create_outbound(&bad_cipher).err().unwrap().message();
    assert!(message.contains("rot13"), "got: {}", message);
}

// -- VLESS -------------------------------------------------------------------

#[test]
fn test_build_vless_request_domain() {
    let uuid = [0x01u8; 16];
    let buf = build_vless_request(&uuid, "example.com", 443).ok().unwrap();

    assert_eq!(buf[0], 0x00);
    assert_eq!(&buf[1..17], &[0x01u8; 16]);
    assert_eq!(buf[17], 0x00);
    assert_eq!(buf[18], 0x01);
    assert_eq!(u16::from_be_bytes([buf[19], buf[20]]), 443);
    assert_eq!(buf[21], 0x02);
    assert_eq!(buf[22], 11);
    assert_eq!(&buf[23..34], b"example.com");
}

#[test]
fn test_build_vless_request_ipv4() {
    let uuid = [0xAA; 16];
    let buf = build_vless_request(&uuid, "1.2.3.4", 80).ok().unwrap();

    assert_eq!(buf[21], 0x01);
    assert_eq!(&buf[22..26], &[1, 2, 3, 4]);
}

#[test]
fn test_build_vless_request_ipv6() {
    let uuid = [0xBB; 16];
    let buf = build_vless_request(&uuid, "::1", 8080).ok().unwrap();

    assert_eq!(buf[21], 0x03);
    let expected = [0, 0, 0, 0, 0, 0, 0, 0, 0, 0, 0, 0, 0, 0, 0, 1];
    assert_eq!(&buf[22..38], &expected);
}

#[test]
fn names_must_fit_one_byte_of_length() {
    let host = "a".repeat(255);
    assert!(build_vless_request(&[0; 16], &host, 1).is_ok());
    assert!(build_trojan_request("00", &host, 1).is_ok());
    let host = "a".repeat(256);
    assert!(build_vless_request(&[0; 16], &host, 1).is_err());
    let message = build_trojan_request("00", &host, 1).err().unwrap().message();
    assert!(message.contains("256"), "got: {}", message);
}

#[test]
fn vless_stream_consumes_response_header_lazily() {
    let answer = [0x00, 0x02, 0xAA, 0xBB, b'h', b'e', b'l', b'l', b'o'];
    let mut stream = VlessStream::new();
    let mut at = 0;
    loop {
        match stream.poll_read() {
            VlessRead::Header(n) => {
                stream.on_data(&answer[at..at + n]).ok().unwrap();
                at += n;
            }
            VlessRead::Pass => break,
            VlessRead::End => panic!("the answer is sound"),
        }
    }
    assert_eq!(&answer[at..], b"hello");
}

#[test]
fn vless_stream_bad_response_version_errors_on_first_read() {
    let mut stream = VlessStream::new();
    let err = stream.on_data(&[0x01]).err().unwrap().message();
    assert!(err.contains("Unexpected VLESS response version"), "got: {}", err);
    assert!(matches!(stream.poll_read(), VlessRead::End));
}

#[test]
fn vless_answer_that_ends_early_is_an_error() {
    let mut stream = VlessStream::new();
    stream.on_data(&[0x00]).ok().unwrap();
    let err = stream.on_eof().message();
    assert!(!err.is_empty());
    assert!(matches!(stream.poll_read(), VlessRead::End));
}

#[test]
fn vless_outbound_reads_its_uuid() {
    let plain = VlessOutbound::new("s", 1, "550e8400-e29b-41d4-a716-446655440000", None)
        .ok()
        .unwrap();
    let bare = VlessOutbound::new_unwarmed("s", 1, "550E8400E29B41D4A716446655440000", None)
        .ok()
        .unwrap();
    assert_eq!(plain.uuid, bare.uuid);
    assert_eq!(plain.uuid[0], 0x55);
    assert_eq!(plain.uuid[15], 0x00);
    assert!(plain.warm_pool && !bare.warm_pool);
    assert!(VlessOutbound::new("s", 1, "550e8400", None).is_err());
}

// -- Trojan ------------------------------------------------------------------

#[test]
fn test_trojan_password_hash() {
    let hash = sha2::Sha224::digest(b"test_password");
    let hex_hash = hex::encode(hash);
    assert_eq!(hex_hash.len(), 56);
    let outbound = TrojanOutbound::new("s", 1, "test_password", None);
    assert_eq!(outbound.password_hash, hex_hash);
}

#[test]
fn test_build_trojan_request_domain() {
    let hash = hex::encode(sha2::Sha224::digest(b"pass"));
    let buf = build_trojan_request(&hash, "example.com", 443).ok().unwrap();

    assert_eq!(&buf[..56], hash.as_bytes());
    assert_eq!(&buf[56..58], b"\r\n");
    assert_eq!(buf[58], 0x01);
    assert_eq!(buf[59], 0x03);
    assert_eq!(buf[60], 11);
    assert_eq!(&buf[61..72], b"example.com");
    assert_eq!(u16::from_be_bytes([buf[72], buf[73]]), 443);
    assert_eq!(&buf[74..76], b"\r\n");
}

#[test]
fn test_build_trojan_request_ipv4() {
    let hash = hex::encode(sha2::Sha224::digest(b"pass"));
    let buf = build_trojan_request(&hash, "192.168.1.1", 8080).ok().unwrap();

    assert_eq!(buf[59], 0x01);
    assert_eq!(&buf[60..64], &[192, 168, 1, 1]);
    assert_eq!(u16::from_be_bytes([buf[64], buf[65]]), 8080);
}

#[test]
fn test_trojan_outbound_new() {
    let outbound = TrojanOutbound::new("server.com", 443, "password123", None);
    assert_eq!(outbound.server, "server.com");
    assert_eq!(outbound.port, 443);
    assert_eq!(outbound.password_hash.len(), 56);
    assert_eq!(OutboundKind::Trojan(outbound).name(), "trojan");
}

// -- Shadowsocks -------------------------------------------------------------

#[test]
fn test_ss_outbound_creation() {
    let outbound = SsOutbound::new("127.0.0.1", 8388, "aes-256-gcm", "password123");
    assert!(outbound.is_ok());
    assert_eq!(
        OutboundKind::Shadowsocks(outbound.ok().unwrap()).name(),
        "shadowsocks"
    );
}

#[test]
fn test_ss_outbound_aead_2022() {
    let key = base64::engine::general_purpose::STANDARD.encode([0u8; 32]);
    let outbound = SsOutbound::new("127.0.0.1", 8388, "2022-blake3-aes-256-gcm", &key);
    assert!(outbound.is_ok());
}

#[test]
fn ss_password_must_fit_its_cipher() {
    let short = base64::engine::general_purpose::STANDARD.encode([0u8; 7]);
    let outbound = SsOutbound::new("127.0.0.1", 8388, "2022-blake3-aes-256-gcm", &short);
    let message = outbound.err().unwrap().message();
    assert!(!message.is_empty());
}

#[test]
fn test_ss_outbound_invalid_cipher() {
    let outbound = SsOutbound::new("127.0.0.1", 8388, "invalid-cipher", "password123");
    assert!(outbound.is_err());
}

#[test]
fn test_target_address_ip_literals_become_socket_addresses() {
    match target_address("2001:db8::1", 443) {
        SsTarget::SocketAddress(sa) => {
            assert!(matches!(sa.ip, IpAddr::V6(_)));
            assert_eq!(sa.port, 443);
        }
        SsTarget::DomainNameAddress(..) => panic!("v6 literal must not be a domain address"),
    }
    match target_address("[::1]", 1080) {
        SsTarget::SocketAddress(sa) => assert_eq!(ip_string(sa.ip), "::1"),
        SsTarget::DomainNameAddress(..) => panic!("bracketed v6 must not be a domain address"),
    }
    match target_address("127.0.0.1", 8080) {
        SsTarget::SocketAddress(sa) => assert!(matches!(sa.ip, IpAddr::V4(_))),
        SsTarget::DomainNameAddress(..) => panic!("v4 literal must not be a domain address"),
    }
    match target_address("example.com", 443) {
        SsTarget::DomainNameAddress(host, port) => {
            assert_eq!(host, "example.com");
            assert_eq!(port, 443);
        }
        SsTarget::SocketAddress(..) => panic!("domain must stay a domain address"),
    }
}

#[test]
fn test_normalize_cipher() {
    assert_eq!(
        normalize_ss_cipher("chacha20-poly1305"),
        "chacha20-ietf-poly1305"
    );
    assert_eq!(normalize_ss_cipher("aes-256-gcm"), "aes-256-gcm");
}

// -- Hysteria2 ---------------------------------------------------------------

#[test]
fn test_hysteria2_outbound_new() {
    let outbound = Hysteria2Outbound::new("server.com", 443, "my_password", None).unwrap();
    assert_eq!(outbound.server, "server.com");
    assert_eq!(outbound.port, 443);
    assert_eq!(outbound.sni, "server.com");
    assert_eq!(OutboundKind::Hysteria2(outbound).name(), "hysteria2");
}

#[test]
fn test_hysteria2_with_tls_config() {
    let tls = TlsConfig {
        sni: Some("custom.sni.com".to_string()),
        skip_cert_verify: true,
        alpn: Some(vec!["h3".to_string()]),
        fingerprint: None,
    };
    let outbound = Hysteria2Outbound::new("server.com", 443, "pass", Some(&tls)).unwrap();
    assert_eq!(outbound.sni, "custom.sni.com");
}

#[test]
fn test_read_tcp_response_reads_full_message() {
    let payload = vec![b'x'; 6000];
    let mut wire = vec![0x00];
    push_varint(&mut wire, payload.len() as u64);
    wire.extend_from_slice(&payload);
    push_varint(&mut wire, 7);
    wire.extend_from_slice(&[0u8; 7]);

    assert!(matches!(
        read_tcp_response(&wire[..wire.len() - 1]),
        TcpResponse::More
    ));
    match read_tcp_response(&wire) {
        TcpResponse::Done { status, message, len } => {
            assert_eq!(status, 0x00);
            assert_eq!(message.len(), 6000);
            assert!(message.as_bytes().iter().all(|&b| b == b'x'));
            assert_eq!(len, wire.len());
        }
        _ => panic!("the response is complete"),
    }
}

#[test]
fn test_read_tcp_response_rejects_oversized_message() {
    let mut wire = vec![0x00];
    push_varint(&mut wire, HY2_MAX_TCP_RESPONSE_MSG_LEN + 1);
    match read_tcp_response(&wire) {
        TcpResponse::MessageTooLarge(n) => assert_eq!(n, HY2_MAX_TCP_RESPONSE_MSG_LEN + 1),
        _ => panic!("message too large"),
    }
}

#[test]
fn oversized_padding_is_refused() {
    let mut wire = vec![0x00];
    push_varint(&mut wire, 0);
    push_varint(&mut wire, HY2_MAX_PADDING_LEN + 1);
    assert!(matches!(read_tcp_response(&wire), TcpResponse::PaddingTooLarge(_)));
}

#[test]
fn test_read_tcp_response_error_status_with_message() {
    let mut wire = vec![0x01];
    push_varint(&mut wire, 8);
    wire.extend_from_slice(b"rejected");
    push_varint(&mut wire, 0);
    match read_tcp_response(&wire) {
        TcpResponse::Done { status, message, .. } => {
            assert_eq!(status, 0x01);
            assert_eq!(message, "rejected");
            assert!(matches!(
                judge_response("a:1", status, &message),
                StreamVerdict::Rejected(_)
            ));
        }
        _ => panic!("the response is complete"),
    }
}

#[test]
fn response_is_read_without_a_byte_too_many() {
    let mut wire = vec![0x00];
    push_varint(&mut wire, 300);
    wire.extend_from_slice(&[b'm'; 300]);
    push_varint(&mut wire, 64);
    wire.extend_from_slice(&[0; 64]);
    let full = wire.len();
    wire.extend_from_slice(b"payload");
    let mut have = 0;
    loop {
        let n = bytes_needed(&wire[..have]);
        if n == 0 {
            break;
        }
        have += n;
    }
    assert_eq!(have, full);
}

#[test]
fn varints_keep_their_value() {
    for v in [0, 63, 64, 16383, 16384, 1073741823, 1073741824, 0x3fff_ffff_ffff_ffff] {
        let mut out = vec![];
        push_varint(&mut out, v);
        assert_eq!(read_varint(&out), Some((v, out.len())));
        assert_eq!(read_varint(&out[..out.len() - 1]), None);
    }
    let mut out = vec![];
    push_varint(&mut out, 0x401);
    assert_eq!(out, vec![0x44, 0x01]);
}

#[test]
fn tcp_request_names_its_target() {
    let wire = build_tcp_request("example.com:443");
    assert_eq!(&wire[..2], &[0x44, 0x01]);
    assert_eq!(wire[2], 15);
    assert_eq!(&wire[3..18], b"example.com:443");
}

#[test]
fn working_alpn_comes_first() {
    let tls = TlsConfig {
        sni: None,
        skip_cert_verify: false,
        alpn: Some(vec!["a".to_string(), "b".to_string(), "c".to_string()]),
        fingerprint: None,
    };
    let mut outbound = Hysteria2Outbound::new("s", 1, "p", Some(&tls)).unwrap();
    let candidates = outbound.alpn_order();
    let last = candidates.last().unwrap().clone();
    outbound.remember_alpn(last.clone());
    let order = outbound.alpn_order();
    assert_eq!(order[0], last);
    assert_eq!(order.len(), candidates.len());
}

#[test]
fn attempts_cover_all_pairs() {
    let outbound = Hysteria2Outbound::new("s", 1, "p", None).unwrap();
    assert!(matches!(outbound.plan(1), ConnectPlan::Retry { .. } | ConnectPlan::Race(_)));
    let mut seen = vec![];
    for i in 0..6 {
        seen.push(attempt_pair(i, 3));
    }
    seen.sort();
    seen.dedup();
    assert_eq!(seen.len(), 6);
}

#[test]
fn streams_are_opened_twice_at_most() {
    assert!(matches!(open_failed(1, "x"), OpenFailure::Retry));
    match open_failed(2, "broken") {
        OpenFailure::GiveUp(e) => assert_eq!(e, "Hysteria2 open_bi failed (attempt 2): broken"),
        OpenFailure::Retry => panic!("there is no third attempt"),
    }
    assert!(matches!(judge_response("a:1", 0, ""), StreamVerdict::Open));
}

#[test]
fn authentication_has_one_good_answer() {
    assert!(judge_auth(233, "233").is_ok());
    assert!(judge_auth(404, "404 Not Found").is_err());
}

// -- VMess -------------------------------------------------------------------

fn sample_uuid() -> [u8; 16] {
    *uuid::Uuid::parse_str("b831381d-6324-4d53-ad4f-8cda48b30811")
        .unwrap()
        .as_bytes()
}

#[test]
fn test_vmess_cmd_key() {
    let key = vmess_cmd_key(&sample_uuid());
    assert_eq!(key.len(), 16);
    let key2 = vmess_cmd_key(&sample_uuid());
    assert_eq!(key, key2);
    let mut hasher = md5::Md5::new();
    hasher.update(sample_uuid());
    hasher.update(b"c48619fe-8f02-49e0-b9e9-edf763e17e21");
    assert_eq!(&key[..], &hasher.finalize()[..]);
}

#[test]
fn test_create_auth_id() {
    let cmd_key = vmess_cmd_key(&sample_uuid());
    let auth_id = create_auth_id(&cmd_key, 1000000);
    assert_eq!(auth_id.len(), 16);
    assert_ne!(
        create_auth_id(&cmd_key, 1000000),
        create_auth_id(&cmd_key, 1000000)
    );

    let key = kdf(&cmd_key, &[b"AES Auth ID Encryption"]);
    let cipher = aes::Aes128::new_from_slice(&key[..16]).unwrap();
    let mut block = auth_id;
    cipher.decrypt_block((&mut block).into());
    assert_eq!(&block[..8], &1000000u64.to_be_bytes());
    assert_eq!(&block[12..16], crc32fast::hash(&block[..12]).to_be_bytes());
}

#[test]
fn auth_id_is_fixed_by_its_salt() {
    let cmd_key = vmess_cmd_key(&sample_uuid());
    let a = auth_id_with(&cmd_key, 7, &[1, 2, 3, 4]);
    assert_eq!(a, auth_id_with(&cmd_key, 7, &[1, 2, 3, 4]));
    assert_ne!(a, auth_id_with(&cmd_key, 7, &[1, 2, 3, 5]));
}

#[test]
fn test_kdf() {
    let key = b"test key material";
    let result = kdf(key, &[b"path1", b"path2"]);
    assert_eq!(result.len(), 32);
    let result2 = kdf(key, &[b"path1", b"path2"]);
    assert_eq!(result, result2);
}

#[test]
fn test_kdf_known_answer() {
    let id = b"1234567890123456";
    let value = kdf(
        id,
        &[
            b"VMess Header AEAD Key_Length",
            b"AEAD Resp Header Len IV",
            b"AEAD Resp Header Len Key",
        ],
    );
    let expected: [u8; 32] = [
        0x27, 0x45, 0x93, 0x4f, 0x3b, 0x98, 0x7d, 0x07, 0x7b, 0x40, 0x82, 0xec, 0x0f, 0x76, 0x06,
        0x0f, 0x33, 0xd7, 0xf4, 0xd8, 0x9d, 0xd1, 0x72, 0xf4, 0x34, 0xc2, 0x75, 0xbf, 0x91, 0xb1,
        0x36, 0x0b,
    ];
    assert_eq!(value, expected);
}

#[test]
fn test_fnv1a32() {
    assert_eq!(fnv1a32(b""), 0x811c9dc5);
    assert_eq!(fnv1a32(b"hello"), 0x4f9f2cab);
}

#[test]
fn test_build_header() {
    let body_key = [1u8; 16];
    let body_iv = [2u8; 16];

    let header = build_vmess_header(
        &sample_uuid(),
        &body_key,
        &body_iv,
        0x42,
        VMessSecurity::Aes128Gcm,
        "example.com",
        443,
    )
    .ok()
    .unwrap();

    assert!(header.len() > 16 + 18 + 8);
}

#[test]
fn header_opens_with_the_derived_keys() {
    let uuid = sample_uuid();
    let cmd_key = vmess_cmd_key(&uuid);
    let auth_id = auth_id_with(&cmd_key, 42, &[9, 9, 9, 9]);
    let nonce = [5u8; 8];
    let req = VMessRequest {
        body_key: &[1; 16],
        body_iv: &[2; 16],
        resp_auth: 0x42,
        security: VMessSecurity::Aes128Gcm,
        host: "example.com",
        port: 443,
    };
    let header = seal_vmess_header(&uuid, &req, &auth_id, &nonce, &[7, 7, 7]).ok().unwrap();
    assert_eq!(&header[..16], &auth_id);
    assert_eq!(&header[34..42], &nonce);

    let open = |label: &[u8], nonce_label: &[u8], sealed: &[u8]| {
        let key = kdf(&cmd_key, &[label, &auth_id, &nonce]);
        let iv = kdf(&cmd_key, &[nonce_label, &auth_id, &nonce]);
        let cipher = aes_gcm::Aes128Gcm::new_from_slice(&key[..16]).unwrap();
        cipher
            .decrypt(
                (&iv[..12]).into(),
                Payload {
                    msg: sealed,
                    aad: &auth_id,
                },
            )
            .unwrap()
    };
    let len = open(
        b"VMess Header AEAD Key_Length",
        b"VMess Header AEAD Nonce_Length",
        &header[16..34],
    );
    let body = open(
        b"VMess Header AEAD Key",
        b"VMess Header AEAD Nonce",
        &header[42..],
    );
    assert_eq!(u16::from_be_bytes([len[0], len[1]]) as usize, body.len());
    assert_eq!(body[0], 1);
    assert_eq!(&body[1..17], &[2; 16]);
    assert_eq!(&body[17..33], &[1; 16]);
    assert_eq!(body[33], 0x42);
    let check = fnv1a32(&body[..body.len() - 4]).to_be_bytes();
    assert_eq!(&body[body.len() - 4..], &check);
}

#[test]
fn test_chunk_cipher_roundtrip_aes() {
    let key = [0xAA; 16];
    let iv = [0xBB; 16];
    let cipher = VMessChunkCipher::new(VMessSecurity::Aes128Gcm, &key, &iv);

    let plaintext = b"Hello, VMess AEAD!";
    let mut buf = plaintext.to_vec();
    assert!(cipher.encrypt_in_place(0, &mut buf));
    assert_eq!(buf.len(), plaintext.len() + 16);
    assert_ne!(&buf[..plaintext.len()], plaintext);

    assert!(cipher.decrypt_in_place(0, &mut buf));
    assert_eq!(buf, plaintext);
}

#[test]
fn test_chunk_cipher_roundtrip_chacha() {
    let key = [0xCC; 16];
    let iv = [0xDD; 16];
    let cipher = VMessChunkCipher::new(VMessSecurity::Chacha20Poly1305, &key, &iv);

    let plaintext = b"Hello, ChaCha20!";
    let mut buf = plaintext.to_vec();
    assert!(cipher.encrypt_in_place(0, &mut buf));
    assert_eq!(buf.len(), plaintext.len() + 16);
    assert!(cipher.decrypt_in_place(0, &mut buf));
    assert_eq!(buf, plaintext);
}

#[test]
fn chunks_are_bound_to_their_number() {
    for security in [VMessSecurity::Aes128Gcm, VMessSecurity::Chacha20Poly1305] {
        let cipher = VMessChunkCipher::new(security, &[1; 16], &[2; 16]);
        let mut buf = b"data".to_vec();
        assert!(cipher.encrypt_in_place(3, &mut buf));
        let mut other = buf.clone();
        assert!(!cipher.decrypt_in_place(4, &mut other));
        assert!(cipher.decrypt_in_place(3, &mut buf));
    }
}

#[test]
fn test_chunk_cipher_none() {
    let key = [0; 16];
    let iv = [0; 16];
    let cipher = VMessChunkCipher::new(VMessSecurity::Unencrypted, &key, &iv);

    let plaintext = b"No encryption";
    let mut buf = plaintext.to_vec();
    assert!(cipher.encrypt_in_place(0, &mut buf));
    assert_eq!(buf, plaintext);
}

#[test]
fn test_make_aead_nonce() {
    let iv = [
        0x01, 0x02, 0x03, 0x04, 0x05, 0x06, 0x07, 0x08, 0x09, 0x0A, 0x0B, 0x0C, 0x0D, 0x0E, 0x0F,
        0x10,
    ];
    let nonce = make_aead_nonce(&iv, 42);
    assert_eq!(nonce[0], 0);
    assert_eq!(nonce[1], 42);
    assert_eq!(&nonce[2..], &iv[2..12]);
}

#[test]
fn test_vmess_outbound_new() {
    let outbound = VMessOutbound::new(
        "server.com",
        443,
        "b831381d-6324-4d53-ad4f-8cda48b30811",
        "aes-128-gcm",
        None,
    )
    .unwrap();
    assert_eq!(OutboundKind::VMess(outbound).name(), "vmess");
}

#[test]
fn vmess_session_begins_with_a_header() {
    let outbound = VMessOutbound::new_unwarmed(
        "server.com",
        443,
        "b831381d-6324-4d53-ad4f-8cda48b30811",
        "none",
        None,
    )
    .unwrap();
    let (header, stream) = outbound.open("example.com", 80).ok().unwrap();
    assert!(header.len() > 16 + 18 + 8);
    assert!(stream.pending().is_empty());
    assert!(VMessOutbound::new("s", 1, "zzz", "auto", None).is_err());
}

#[test]
fn test_security_from_str() {
    assert_eq!(
        VMessSecurity::from_str("aes-128-gcm"),
        VMessSecurity::Aes128Gcm
    );
    assert_eq!(
        VMessSecurity::from_str("chacha20-poly1305"),
        VMessSecurity::Chacha20Poly1305
    );
    assert_eq!(VMessSecurity::from_str("auto"), VMessSecurity::Aes128Gcm);
    assert_eq!(VMessSecurity::from_str("none"), VMessSecurity::Unencrypted);
    assert_eq!(VMessSecurity::from_str("zero"), VMessSecurity::Zero);
    assert_eq!(VMessSecurity::Auto.byte(), VMessSecurity::Aes128Gcm.byte());
}

#[test]
fn unreached_servers_are_named_with_their_targets() {
    assert_eq!(
        unreached_message("VMess", "server.com", 443, "example.com", 80),
        "VMess: failed to connect to server.com:443 (target: example.com:80)"
    );
}

#[test]
fn connecting_is_tried_as_often_as_planned() {
    let mut retries = Retries::new(3);
    let first = retries.on_failure();
    assert_eq!(first, RetryStep::Pause(250));
    assert_eq!(retries.on_failure(), first);
    assert_eq!(retries.on_failure(), RetryStep::GiveUp);

    let mut once = Retries::new(1);
    assert_eq!(once.on_failure(), RetryStep::GiveUp);
}

#[test]
fn ss_cipher_is_known_in_any_case() {
    assert!(SsOutbound::new("127.0.0.1", 8388, "AES-256-GCM", "p").is_ok());
    assert!(SsOutbound::new("127.0.0.1", 8388, "Chacha20-IETF-Poly1305", "p").is_ok());
}
