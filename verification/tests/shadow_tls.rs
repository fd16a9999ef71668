//! The handshake that hides a proxy, and its frames.

use sha2::Digest;

use sockrocket_core::proxy::shadow_tls::{
    hmac_password, kdf, mac4, support_tls13, FrameRole, HandshakeTap, ReadStep, RelayError,
    ShadowTlsError, ShadowTlsIo, ShadowTlsOutbound, WriteStep, HMAC_SIZE, MAX_FRAME_PAYLOAD,
    TLS_APPLICATION_DATA, TLS_HEADER_SIZE,
};

use sockrocket_core::proxy::ss::SsTarget;

/// A ServerHello, with or without the extension that says TLS 1.3.
fn server_hello_record(server_random: [u8; 32], tls13: bool) -> Vec<u8> {
    let mut body = vec![0x03, 0x03];
    body.extend_from_slice(&server_random);
    body.push(0);
    body.extend_from_slice(&[0x13, 0x01]);
    body.push(0);
    let mut extensions = Vec::new();
    if tls13 {
        extensions.extend_from_slice(&43u16.to_be_bytes());
        extensions.extend_from_slice(&2u16.to_be_bytes());
        extensions.extend_from_slice(&0x0304u16.to_be_bytes());
    }
    body.extend_from_slice(&(extensions.len() as u16).to_be_bytes());
    body.extend_from_slice(&extensions);

    let mut handshake = vec![0x02, 0];
    handshake.extend_from_slice(&(body.len() as u16).to_be_bytes());
    handshake.extend_from_slice(&body);

    let mut record = vec![0x16, 0x03, 0x03];
    record.extend_from_slice(&(handshake.len() as u16).to_be_bytes());
    record.extend_from_slice(&handshake);
    record
}

/// The first sealed record as the server wraps it.
fn spliced_record(password: &str, server_random: &[u8; 32], payload: &[u8]) -> Vec<u8> {
    let key = kdf(password, server_random);
    let mut xored = payload.to_vec();
    for (i, b) in xored.iter_mut().enumerate() {
        *b ^= key[i % key.len()];
    }
    let mac = hmac_password(password, &[server_random, &xored]);
    let mut body = mac4(&mac);
    body.extend_from_slice(&xored);

    let mut record = vec![TLS_APPLICATION_DATA, 0x03, 0x03];
    record.extend_from_slice(&(body.len() as u16).to_be_bytes());
    record.extend_from_slice(&body);
    record
}

fn write_all(io: &mut ShadowTlsIo, data: &[u8]) -> Vec<u8> {
    let mut wire = Vec::new();
    assert!(matches!(io.poll_write(data), WriteStep::Drain));
    while !io.pending().is_empty() {
        let n = io.pending().len().min(1000);
        wire.extend_from_slice(&io.pending()[..n]);
        io.on_written(n, false).ok().unwrap();
    }
    assert_eq!(io.finish_write(data), data.len());
    wire
}

fn read_all(io: &mut ShadowTlsIo, wire: &[u8], piece: usize) -> Result<Vec<u8>, ShadowTlsError> {
    let mut got = Vec::new();
    let mut at = 0;
    loop {
        match io.poll_read(4096) {
            ReadStep::Deliver(data) => {
                if data.is_empty() {
                    return Ok(got);
                }
                got.extend_from_slice(&data);
            }
            ReadStep::Fill(n) => {
                let end = (at + n.min(piece)).min(wire.len());
                if at == end {
                    io.on_eof()?;
                } else {
                    io.on_data(&wire[at..end])?;
                    at = end;
                }
            }
            ReadStep::Fail(e) => return Err(e),
        }
    }
}

#[test]
fn support_tls13_detection() {
    let sr = [7u8; 32];
    let rec = server_hello_record(sr, true);
    assert!(support_tls13(&rec));
    let rec = server_hello_record(sr, false);
    assert!(!support_tls13(&rec));
}

#[test]
fn kdf_matches_reference() {
    let mut hasher = sha2::Sha256::new();
    hasher.update(b"10086");
    hasher.update([9u8; 32]);
    let expected: [u8; 32] = hasher.finalize().into();
    assert_eq!(kdf("10086", &[9u8; 32]), expected);
}

#[test]
fn tap_extracts_random_and_unwraps_splice() {
    let password = "10086";
    let sr = [42u8; 32];
    let payload = b"encrypted-flight-record";

    let sh = server_hello_record(sr, true);
    let splice = spliced_record(password, &sr, payload);
    let mut wire = sh.clone();
    wire.extend_from_slice(&splice);

    let mut tap = HandshakeTap::new(password.to_string());
    let mut got = Vec::new();
    let mut at = 0;
    while got.len() < sh.len() + splice.len() - HMAC_SIZE {
        match tap.poll_read(1024) {
            ReadStep::Deliver(data) => got.extend_from_slice(&data),
            ReadStep::Fill(n) => {
                tap.on_data(&wire[at..at + n]);
                at += n;
            }
            ReadStep::Fail(e) => panic!("{}", e.message()),
        }
    }
    assert_eq!(&got[..sh.len()], &sh[..]);
    let cleaned = &got[sh.len()..];

    let state = tap.state().expect("state extracted");
    assert_eq!(state.server_random, sr);
    assert!(state.tls13);
    assert!(tap.authorized());

    assert_eq!(cleaned[0], TLS_APPLICATION_DATA);
    let cleaned_len = u16::from_be_bytes([cleaned[3], cleaned[4]]) as usize;
    assert_eq!(cleaned_len, payload.len());
    assert_eq!(&cleaned[TLS_HEADER_SIZE..], payload);

    // The session then speaks to a server that knows the password.
    let mut client = tap.into_relay().ok().unwrap();
    let mut server = ShadowTlsIo::new(password.to_string(), &sr, FrameRole::Server);
    let wire = write_all(&mut client, b"hello");
    assert_eq!(read_all(&mut server, &wire, usize::MAX).ok().unwrap(), b"hello");
}

#[test]
fn ordinary_server_is_not_authorized() {
    let sr = [42u8; 32];
    let mut wire = server_hello_record(sr, true);
    wire.extend_from_slice(&spliced_record("other", &sr, b"flight"));
    let mut tap = HandshakeTap::new("10086".to_string());
    let mut at = 0;
    while at < wire.len() {
        match tap.poll_read(1024) {
            ReadStep::Deliver(_) => {}
            ReadStep::Fill(n) => {
                tap.on_data(&wire[at..at + n]);
                at += n;
            }
            ReadStep::Fail(e) => panic!("{}", e.message()),
        }
    }
    assert!(!tap.authorized());
    assert!(matches!(tap.into_relay(), Err(RelayError::NotAuthorized)));
}

#[test]
fn frame_codec_round_trip() {
    let sr = [3u8; 32];
    let mut client = ShadowTlsIo::new("p@ss".to_string(), &sr, FrameRole::Client);
    let mut server = ShadowTlsIo::new("p@ss".to_string(), &sr, FrameRole::Server);

    let payloads: Vec<Vec<u8>> = vec![
        b"first".to_vec(),
        vec![0xAB; 1000],
        b"third frame payload".to_vec(),
    ];
    let mut wire = Vec::new();
    for p in &payloads {
        wire.extend_from_slice(&write_all(&mut client, p));
    }
    let received = read_all(&mut server, &wire, usize::MAX).ok().unwrap();
    assert_eq!(received, payloads.concat());
}

#[test]
fn frame_codec_rejects_tampering() {
    let sr = [3u8; 32];
    let mut client = ShadowTlsIo::new("wrong".to_string(), &sr, FrameRole::Client);
    let wire = write_all(&mut client, b"tampered");
    let mut server = ShadowTlsIo::new("right".to_string(), &sr, FrameRole::Server);
    assert!(matches!(
        read_all(&mut server, &wire, usize::MAX),
        Err(ShadowTlsError::TagMismatch)
    ));
}

#[test]
fn frame_codec_splits_oversized_payload() {
    let sr = [5u8; 32];
    let mut client = ShadowTlsIo::new("p@ss".to_string(), &sr, FrameRole::Client);
    let mut server = ShadowTlsIo::new("p@ss".to_string(), &sr, FrameRole::Server);

    let payload = vec![0xAB; MAX_FRAME_PAYLOAD * 2 + 12345];
    let wire = write_all(&mut client, &payload);
    let received = read_all(&mut server, &wire, usize::MAX).ok().unwrap();
    assert_eq!(received, payload);
}

#[test]
fn frame_codec_equal_length_frames() {
    let sr = [9u8; 32];
    let mut client = ShadowTlsIo::new("p@ss".to_string(), &sr, FrameRole::Client);
    let mut server = ShadowTlsIo::new("p@ss".to_string(), &sr, FrameRole::Server);

    let payloads: Vec<Vec<u8>> = (0..5).map(|i| vec![0xA0 + i as u8; 64]).collect();
    let mut wire = Vec::new();
    for p in &payloads {
        wire.extend_from_slice(&write_all(&mut client, p));
    }
    let received = read_all(&mut server, &wire, 32).ok().unwrap();
    assert_eq!(received, payloads.concat());
}

#[test]
fn frames_of_other_kinds_are_errors() {
    let sr = [1u8; 32];
    let mut io = ShadowTlsIo::new("p".to_string(), &sr, FrameRole::Client);
    assert!(matches!(
        read_all(&mut io, &[0x16, 3, 3, 0, 9, 0, 0, 0, 0, 0, 0, 0, 0, 0], usize::MAX),
        Err(ShadowTlsError::UnexpectedType(0x16))
    ));
    let mut io = ShadowTlsIo::new("p".to_string(), &sr, FrameRole::Client);
    assert!(matches!(
        read_all(&mut io, &[0x17, 3, 3, 0, 3, 0, 0, 0], usize::MAX),
        Err(ShadowTlsError::ShortFrame)
    ));
    let mut io = ShadowTlsIo::new("p".to_string(), &sr, FrameRole::Client);
    assert!(matches!(
        read_all(&mut io, &[0x17, 3, 3, 0, 30, 1, 2], usize::MAX),
        Err(ShadowTlsError::EofInFrame)
    ));
}

#[test]
fn nothing_written_is_an_error() {
    let sr = [1u8; 32];
    let mut io = ShadowTlsIo::new("p".to_string(), &sr, FrameRole::Client);
    assert!(matches!(io.poll_write(b"x"), WriteStep::Drain));
    assert!(matches!(io.on_written(0, false), Err(ShadowTlsError::WriteZero)));
    assert!(matches!(io.on_written(0, true), Err(ShadowTlsError::FlushZero)));
}

#[test]
fn outbound_needs_a_cipher_that_is_known() {
    let good = ShadowTlsOutbound::new("s", 443, "aes-128-gcm", "a", "cdn.example.com", "b", false);
    assert!(good.is_ok());
    let bad = ShadowTlsOutbound::new_unwarmed("s", 443, "rot13", "a", "h", "b", false);
    assert!(bad.is_err());
}

#[test]
fn relays_say_why_there_is_none() {
    let cases = [
        (RelayError::BadHost, "shadow-tls: invalid TLS host 'site'"),
        (RelayError::TimedOut, "shadow-tls handshake with s:1 timed out"),
        (RelayError::HandshakeFailed, "shadow-tls TLS handshake with s:1 failed"),
        (
            RelayError::NotAuthorized,
            "shadow-tls authentication failed (server s:1 rejected the session id signature)",
        ),
    ];
    for (error, text) in cases {
        assert_eq!(error.message("s:1", "site"), text);
    }
}

#[test]
fn targets_go_out_as_names() {
    let outbound =
        ShadowTlsOutbound::new("s", 1, "aes-256-gcm", "p", "site", "q", false).ok().unwrap();
    match outbound.target("127.0.0.1", 80) {
        SsTarget::DomainNameAddress(host, port) => assert_eq!((host.as_str(), port), ("127.0.0.1", 80)),
        SsTarget::SocketAddress(_) => panic!("the target is a name"),
    }
}

#[test]
fn writes_arrive_whatever_the_pieces() {
    let sr = [8u8; 32];
    let payloads: Vec<Vec<u8>> = vec![b"one".to_vec(), vec![7; 300], b"three".to_vec()];
    for piece in [1, 5, 64, usize::MAX] {
        for (from, to) in [
            (FrameRole::Client, FrameRole::Server),
            (FrameRole::Server, FrameRole::Client),
        ] {
            let mut sender = ShadowTlsIo::new("p@ss".to_string(), &sr, from);
            let mut reader = ShadowTlsIo::new("p@ss".to_string(), &sr, to);
            let mut wire = Vec::new();
            for p in &payloads {
                wire.extend_from_slice(&write_all(&mut sender, p));
            }
            assert_eq!(read_all(&mut reader, &wire, piece).ok().unwrap(), payloads.concat());
        }
    }
}

#[test]
fn frame_out_of_order_is_refused() {
    let sr = [8u8; 32];
    let mut client = ShadowTlsIo::new("p@ss".to_string(), &sr, FrameRole::Client);
    let mut server = ShadowTlsIo::new("p@ss".to_string(), &sr, FrameRole::Server);
    let first = write_all(&mut client, b"first");
    let mut wire = write_all(&mut client, b"second");
    wire.extend_from_slice(&first);
    assert!(matches!(
        read_all(&mut server, &wire, usize::MAX),
        Err(ShadowTlsError::TagMismatch)
    ));
}
