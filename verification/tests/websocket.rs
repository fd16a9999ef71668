//! The WebSocket handshake and its frames.

use base64::Engine;

use sockrocket_core::config::WsConfig;
use sockrocket_core::proxy::ws::{
    build_handshake_request, build_handshake_with, compute_accept_key, connect_ws,
    encode_client_frame, encode_frame_with_key, handshake_step, handshake_timeout_message, is_reserved_header, normalize_path, read_frame,
    validate_handshake_response, HandshakeStep, ReadStep, WriteStep, WsError, WsStream,
    OPCODE_BINARY, OPCODE_CLOSE, OPCODE_CONT, OPCODE_PING, OPCODE_PONG,
};

/// Bytes of a peer, handed over in pieces of at most `piece`, and what the
/// stream delivers and sends.
fn drive(ws: &mut WsStream, wire: &[u8], piece: usize, room: usize) -> (Vec<u8>, Vec<u8>, bool) {
    let mut got = Vec::new();
    let mut sent = Vec::new();
    let mut at = 0;
    loop {
        match ws.poll_read(room) {
            ReadStep::Deliver(data) => {
                if data.is_empty() {
                    return (got, sent, true);
                }
                got.extend_from_slice(&data);
            }
            ReadStep::Fill(n) => {
                let end = (at + n.min(piece)).min(wire.len());
                if at == end {
                    return (got, sent, false);
                }
                ws.on_data(&wire[at..end]);
                at = end;
            }
            ReadStep::Flush => {
                let n = ws.pending().len();
                sent.extend_from_slice(ws.pending());
                if n > 0 {
                    ws.on_written(n).ok().unwrap();
                }
                ws.on_ctrl_flushed();
            }
            ReadStep::Again => {}
            ReadStep::Fail(e) => panic!("{}", e.message()),
        }
    }
}

// -- Handshake ---------------------------------------------------------------

#[test]
fn accept_key_matches_rfc6455_example() {
    assert_eq!(
        compute_accept_key("dGhlIHNhbXBsZSBub25jZQ=="),
        "s3pPLMBiTxaQ9kYGzzhZRbK+xOo="
    );
}

#[test]
fn build_request_has_required_headers() {
    let (req, key) = build_handshake_request("cdn.example.com", "/ray", None);
    let text = String::from_utf8(req).unwrap();
    assert!(text.starts_with("GET /ray HTTP/1.1\r\n"), "got: {}", text);
    assert!(text.contains("Host: cdn.example.com\r\n"));
    assert!(text.contains("Upgrade: websocket\r\n"));
    assert!(text.contains("Connection: Upgrade\r\n"));
    assert!(text.contains("Sec-WebSocket-Version: 13\r\n"));
    assert!(text.ends_with("\r\n\r\n"));
    let decoded = base64::engine::general_purpose::STANDARD
        .decode(&key)
        .unwrap();
    assert_eq!(decoded.len(), 16);
    assert!(text.contains(&format!("Sec-WebSocket-Key: {}\r\n", key)));
}

#[test]
fn build_request_includes_custom_headers_but_skips_reserved() {
    let headers = vec![
        ("Host".to_string(), "evil.example.com".to_string()),
        ("X-Custom".to_string(), "abc".to_string()),
        ("Upgrade".to_string(), "h2c".to_string()),
    ];
    let (req, _) = build_handshake_request("cdn.example.com", "/", Some(&headers));
    let text = String::from_utf8(req).unwrap();
    assert!(text.contains("X-Custom: abc\r\n"));
    assert_eq!(text.matches("Host:").count(), 1, "got: {}", text);
    assert!(text.contains("Host: cdn.example.com\r\n"));
    assert_eq!(text.matches("Upgrade:").count(), 1);
}

#[test]
fn reserved_headers_are_known_in_any_case() {
    assert!(is_reserved_header("HOST"));
    assert!(is_reserved_header("sec-websocket-key"));
    assert!(!is_reserved_header("X-Host"));
}

#[test]
fn paths_begin_with_a_slash() {
    assert_eq!(normalize_path(None), "/");
    assert_eq!(normalize_path(Some("")), "/");
    assert_eq!(normalize_path(Some("ray")), "/ray");
    assert_eq!(normalize_path(Some("/ray")), "/ray");
}

#[test]
fn validate_response_rejects_bad_status_and_bad_accept() {
    let key = "dGhlIHNhbXBsZSBub25jZQ==";
    let good = format!(
        "HTTP/1.1 101 Switching Protocols\r\nSec-WebSocket-Accept: {}\r\n",
        compute_accept_key(key)
    );
    validate_handshake_response(&good, key).ok().unwrap();

    let wrong_accept =
        "HTTP/1.1 101 Switching Protocols\r\nSec-WebSocket-Accept: AAAA\r\n".to_string();
    assert!(matches!(
        validate_handshake_response(&wrong_accept, key),
        Err(WsError::AcceptMismatch { .. })
    ));

    assert!(matches!(
        validate_handshake_response("HTTP/1.1 200 OK\r\n", key),
        Err(WsError::UpgradeRejected(_))
    ));
    assert!(matches!(
        validate_handshake_response("HTTP/1.1 101 Switching Protocols\r\n", key),
        Err(WsError::MissingAccept)
    ));
}

#[test]
fn handshake_sends_expected_request() {
    let headers = vec![("X-Token".to_string(), "t0k3n".to_string())];
    let req = build_handshake_with("cdn.example.com", "/ray", &headers, "a2V5");
    let request = String::from_utf8(req).unwrap();
    assert!(request.starts_with("GET /ray HTTP/1.1\r\n"));
    assert!(request.contains("Host: cdn.example.com\r\n"));
    assert!(request.contains("X-Token: t0k3n"), "got: {:?}", request);
}

#[test]
fn handshake_failure_on_wrong_accept() {
    let answer = b"HTTP/1.1 101 Switching Protocols\r\nSec-WebSocket-Accept: bogus\r\n\r\n";
    assert!(matches!(
        handshake_step(&answer[..20], "a2V5"),
        HandshakeStep::More
    ));
    assert!(matches!(
        handshake_step(answer, "a2V5"),
        HandshakeStep::Failed(WsError::AcceptMismatch { .. })
    ));
}

#[test]
fn endless_handshake_is_refused() {
    let answer = vec![b'a'; 9000];
    assert!(matches!(
        handshake_step(&answer, "a2V5"),
        HandshakeStep::Failed(WsError::ResponseTooLarge)
    ));
}

// -- Frames ------------------------------------------------------------------

#[test]
fn frame_roundtrip_masked_small() {
    let payload = b"hello websocket";
    let encoded = encode_frame_with_key(OPCODE_BINARY, payload, Some([0xDE, 0xAD, 0xBE, 0xEF]));
    assert_eq!(encoded[0], 0x82);
    assert_eq!(encoded[1], 0x80 | payload.len() as u8);
    assert_eq!(&encoded[2..6], &[0xDE, 0xAD, 0xBE, 0xEF]);

    let frame = read_frame(&encoded).ok().unwrap().unwrap();
    assert_eq!(frame.opcode, OPCODE_BINARY);
    assert_eq!(frame.payload, payload);
    assert_eq!(frame.size, encoded.len());
}

#[test]
fn frame_roundtrip_16bit_length() {
    let payload = vec![0xABu8; 40_000];
    let encoded = encode_client_frame(OPCODE_BINARY, &payload);
    assert_eq!(encoded[1] & 0x7f, 126);
    assert_eq!(u16::from_be_bytes([encoded[2], encoded[3]]), 40_000);

    let frame = read_frame(&encoded).ok().unwrap().unwrap();
    assert_eq!(frame.payload, payload);
}

#[test]
fn frame_roundtrip_64bit_length_header() {
    let payload = vec![0xCDu8; 65_536];
    let encoded = encode_client_frame(OPCODE_BINARY, &payload);
    assert_eq!(encoded[1] & 0x7f, 127);
    assert_eq!(
        u64::from_be_bytes(encoded[2..10].try_into().unwrap()),
        65_536
    );

    let frame = read_frame(&encoded).ok().unwrap().unwrap();
    assert_eq!(frame.payload, payload);
}

#[test]
fn read_frame_tolerates_bytewise_delivery() {
    let payload = b"segmented";
    let encoded = encode_client_frame(OPCODE_BINARY, payload);
    for n in 0..encoded.len() {
        assert!(read_frame(&encoded[..n]).ok().unwrap().is_none());
    }
    assert_eq!(read_frame(&encoded).ok().unwrap().unwrap().payload, payload);
}

#[test]
fn byte_stream_roundtrip_over_frames() {
    let data = vec![0x5Au8; 100_000];
    let mut ws = WsStream::new(vec![]);
    let mut wire = Vec::new();
    let mut sent = 0;
    while sent < data.len() {
        match ws.poll_write(&data[sent..]) {
            WriteStep::Done(n) => sent += n,
            WriteStep::Drain => {
                while !ws.pending().is_empty() {
                    let n = ws.pending().len().min(1000);
                    wire.extend_from_slice(&ws.pending()[..n]);
                    ws.on_written(n).ok().unwrap();
                }
                if let Some(n) = ws.finish_write() {
                    sent += n;
                }
            }
            WriteStep::Fail(e) => panic!("{}", e.message()),
        }
    }
    // An echo: every frame comes back without a mask.
    let mut answer = Vec::new();
    let mut at = 0;
    while at < wire.len() {
        let frame = read_frame(&wire[at..]).ok().unwrap().unwrap();
        at += frame.size;
        answer.extend_from_slice(&encode_frame_with_key(OPCODE_BINARY, &frame.payload, None));
    }
    let (got, _, _) = drive(&mut ws, &answer, 4096, 65536);
    assert_eq!(got, data);
}

#[test]
fn fragmented_message_is_reassembled() {
    let mut wire = vec![0x02];
    wire.extend_from_slice(&encode_frame_with_key(OPCODE_BINARY, b"hello ", None)[1..]);
    wire.extend_from_slice(&encode_frame_with_key(OPCODE_CONT, b"world", None));
    let mut ws = WsStream::new(vec![]);
    let (got, _, _) = drive(&mut ws, &wire, usize::MAX, 64);
    assert_eq!(got, b"hello world");
}

#[test]
fn ping_is_answered_with_pong() {
    let wire = encode_frame_with_key(OPCODE_PING, b"pingbody", None);
    let mut ws = WsStream::new(vec![]);
    let (got, sent, over) = drive(&mut ws, &wire, usize::MAX, 64);
    assert!(got.is_empty());
    assert!(!over);
    let frame = read_frame(&sent).ok().unwrap().unwrap();
    assert_eq!(frame.opcode, OPCODE_PONG);
    assert_eq!(frame.payload, b"pingbody");
}

#[test]
fn close_frame_ends_the_stream() {
    let wire = encode_frame_with_key(OPCODE_CLOSE, &[], None);
    let mut ws = WsStream::new(vec![]);
    let (got, sent, over) = drive(&mut ws, &wire, usize::MAX, 16);
    assert!(got.is_empty());
    assert!(over, "close must surface as EOF");
    assert_eq!(read_frame(&sent).ok().unwrap().unwrap().opcode, OPCODE_CLOSE);
}

#[test]
fn shutdown_sends_close_frame() {
    let mut ws = WsStream::new(vec![]);
    ws.begin_shutdown();
    let frame = read_frame(ws.pending()).ok().unwrap().unwrap();
    assert_eq!(frame.opcode, OPCODE_CLOSE);
    let n = ws.pending().len();
    ws.on_written(n).ok().unwrap();
    ws.on_shutdown();
    assert!(matches!(ws.poll_write(b"x"), WriteStep::Fail(WsError::Closed)));
}

#[test]
fn stream_read_tolerates_bytewise_frame_delivery() {
    let wire = encode_frame_with_key(OPCODE_BINARY, b"trickle", None);
    let mut ws = WsStream::new(vec![]);
    let (got, _, _) = drive(&mut ws, &wire, 1, 7);
    assert_eq!(got, b"trickle");
}

#[test]
fn oversized_frame_is_delivered_across_reads() {
    let wire = encode_frame_with_key(OPCODE_BINARY, &vec![0x77u8; 70_000], None);
    let mut ws = WsStream::new(vec![]);
    let (got, _, _) = drive(&mut ws, &wire, 65536, 1000);
    assert_eq!(got.len(), 70_000);
    assert!(got.iter().all(|&b| b == 0x77));
}

#[test]
fn frame_bytes_attached_to_handshake_response_survive() {
    let key = "dGhlIHNhbXBsZSBub25jZQ==";
    let mut answer = format!(
        "HTTP/1.1 101 Switching Protocols\r\nSec-WebSocket-Accept: {}\r\n\r\n",
        compute_accept_key(key)
    )
    .into_bytes();
    answer.extend_from_slice(&encode_frame_with_key(OPCODE_BINARY, b"early", None));
    let end = match handshake_step(&answer, key) {
        HandshakeStep::Switched(n) => n,
        _ => panic!("the answer is sound"),
    };
    let mut ws = WsStream::new(answer[end..].to_vec());
    let (got, _, _) = drive(&mut ws, &[], usize::MAX, 64);
    assert_eq!(got, b"early");
}

#[test]
fn giant_frame_is_refused() {
    let mut wire = vec![0x82, 127];
    wire.extend_from_slice(&(0x400_0001u64).to_be_bytes());
    let mut ws = WsStream::new(vec![]);
    let mut at = 0;
    loop {
        match ws.poll_read(16) {
            ReadStep::Fill(n) => {
                ws.on_data(&wire[at..at + n]);
                at += n;
            }
            ReadStep::Fail(WsError::FrameTooLarge(n)) => {
                assert_eq!(n, 0x400_0001);
                break;
            }
            _ => panic!("the frame is too large"),
        }
    }
    assert!(read_frame(&wire).is_err());
}

#[test]
fn connection_that_breaks_in_a_frame_is_an_error() {
    let mut ws = WsStream::new(vec![]);
    ws.on_data(&[0x82]);
    assert!(matches!(ws.on_eof(), Err(WsError::EofInHeader)));
    let mut ws = WsStream::new(vec![]);
    assert!(ws.on_eof().is_ok());
}

#[test]
fn requests_follow_their_configuration() {
    let config = WsConfig {
        path: Some("chat".to_string()),
        host: None,
        headers: Some(vec![("X-Key".to_string(), "v".to_string())]),
    };
    let (request, key) = connect_ws("server.com", &config);
    let text = String::from_utf8(request).unwrap();
    assert!(text.starts_with("GET /chat HTTP/1.1\r\nHost: server.com\r\n"));
    assert!(text.contains(&format!("Sec-WebSocket-Key: {}\r\n", key)));
    assert!(text.ends_with("X-Key: v\r\n\r\n"));
    assert_eq!(
        handshake_timeout_message(15),
        "WebSocket handshake timed out after 15s"
    );
}

#[test]
fn streams_survive_any_split() {
    let mut sender = WsStream::new(vec![]);
    let mut wire = vec![];
    for part in [&b"one"[..], &b"two and more"[..]] {
        assert!(matches!(sender.poll_write(part), WriteStep::Drain));
        wire.extend_from_slice(sender.pending());
        let n = sender.pending().len();
        sender.on_written(n).ok().unwrap();
        assert_eq!(sender.finish_write(), Some(part.len()));
    }
    for cut in 0..wire.len() {
        let mut reader = WsStream::new(wire[..cut].to_vec());
        let mut at = cut;
        let mut got = vec![];
        while got.len() < 15 {
            match reader.poll_read(4) {
                ReadStep::Deliver(d) => got.extend(d),
                ReadStep::Fill(n) => {
                    let end = (at + n).min(wire.len());
                    reader.on_data(&wire[at..end]);
                    at = end;
                }
                ReadStep::Again => {}
                _ => panic!("the frames are sound"),
            }
        }
        assert_eq!(got, b"onetwo and more");
    }
}

#[test]
fn control_frames_between_fragments_are_answered() {
    let mut wire = vec![0x01];
    wire.extend_from_slice(&encode_frame_with_key(OPCODE_BINARY, b"split ", None)[1..]);
    wire.extend_from_slice(&encode_frame_with_key(OPCODE_PING, b"one", Some([1, 2, 3, 4])));
    wire.extend_from_slice(&encode_frame_with_key(OPCODE_PONG, b"unasked", None));
    wire.extend_from_slice(&encode_frame_with_key(OPCODE_CONT, b"message", Some([9, 8, 7, 6])));
    wire.extend_from_slice(&encode_frame_with_key(OPCODE_PING, b"two", None));
    wire.extend_from_slice(&encode_frame_with_key(OPCODE_CLOSE, &[], None));
    for piece in [1, 3, usize::MAX] {
        for room in [1, 4, 64] {
            let mut ws = WsStream::new(wire[..5].to_vec());
            let (got, sent, over) = drive(&mut ws, &wire[5..], piece, room);
            assert_eq!(got, b"split message");
            assert!(over);
            let mut at = 0;
            let mut answers = Vec::new();
            while at < sent.len() {
                let frame = read_frame(&sent[at..]).ok().unwrap().unwrap();
                // A masked frame: two bytes, the key, the payload.
                at += 6 + frame.payload.len();
                answers.push((frame.opcode, frame.payload));
            }
            assert_eq!(
                answers,
                vec![
                    (OPCODE_PONG, b"one".to_vec()),
                    (OPCODE_PONG, b"two".to_vec()),
                    (OPCODE_CLOSE, vec![])
                ]
            );
        }
    }
}

#[test]
fn nothing_behind_a_close_frame_is_read() {
    let mut wire = encode_frame_with_key(OPCODE_PING, b"p", None);
    wire.extend_from_slice(&encode_frame_with_key(OPCODE_BINARY, b"data", None));
    wire.extend_from_slice(&encode_frame_with_key(OPCODE_CLOSE, b"\x03\xe8bye", Some([5; 4])));
    wire.extend_from_slice(&encode_frame_with_key(OPCODE_BINARY, b"late", None));
    wire.extend_from_slice(&[0xff; 9]);
    for (cut, piece) in [(0, 1), (0, usize::MAX), (7, 2), (wire.len(), 1)] {
        let mut ws = WsStream::new(wire[..cut].to_vec());
        let (got, sent, over) = drive(&mut ws, &wire[cut..], piece, 3);
        assert_eq!(got, b"data");
        assert!(over);
        let pong = read_frame(&sent).ok().unwrap().unwrap();
        assert_eq!((pong.opcode, pong.payload), (OPCODE_PONG, b"p".to_vec()));
        let close = read_frame(&sent[7..]).ok().unwrap().unwrap();
        assert_eq!((close.opcode, close.payload.len()), (OPCODE_CLOSE, 0));
        // The close frame is masked, and the last that is sent.
        assert_eq!((sent[8], sent.len()), (0x80, 7 + 6));
        assert!(matches!(ws.poll_read(16), ReadStep::Deliver(d) if d.is_empty()));
    }
}

#[test]
fn close_that_was_begun_here_is_sent_once() {
    let mut ws = WsStream::new(vec![]);
    ws.begin_shutdown();
    let n = ws.pending().len();
    ws.on_written(n).ok().unwrap();
    let wire = encode_frame_with_key(OPCODE_CLOSE, &[], None);
    let (got, sent, over) = drive(&mut ws, &wire, usize::MAX, 16);
    assert!(got.is_empty() && sent.is_empty() && over);
}
