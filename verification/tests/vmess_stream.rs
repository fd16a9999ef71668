//! Whole VMess sessions, driven byte by byte.

use aes_gcm::aead::{Aead, KeyInit, Payload};
use aes_gcm::Aes128Gcm;

use sockrocket_core::proxy::vmess::{
    kdf, ReadStep, VMessChunkCipher, VMessSecurity, VMessStream, WriteStep,
};
use sockrocket_core::proxy::ws::{encode_frame_with_key, WsStream, OPCODE_BINARY};
use sockrocket_core::proxy::ws::{read_frame, ReadStep as WsRead, WriteStep as WsWrite};

fn seal(key: &[u8], iv: &[u8], msg: &[u8]) -> Vec<u8> {
    let cipher = Aes128Gcm::new_from_slice(&key[..16]).unwrap();
    cipher
        .encrypt((&iv[..12]).into(), Payload { msg, aad: &[] })
        .unwrap()
}

/// The answer of a server: its length, then the authentication byte, both
/// sealed.
fn seal_response_header(resp_auth: u8, resp_key: &[u8; 16], resp_iv: &[u8; 16]) -> Vec<u8> {
    let payload = [resp_auth, 0x00, 0x00, 0x00];
    let mut out = seal(
        &kdf(resp_key, &[b"AEAD Resp Header Len Key"]),
        &kdf(resp_iv, &[b"AEAD Resp Header Len IV"]),
        &(payload.len() as u16).to_be_bytes(),
    );
    out.extend_from_slice(&seal(
        &kdf(resp_key, &[b"AEAD Resp Header Key"]),
        &kdf(resp_iv, &[b"AEAD Resp Header IV"]),
        &payload,
    ));
    out
}

fn session(security: VMessSecurity) -> VMessStream {
    VMessStream::new(&[1; 16], &[2; 16], &[3; 16], &[4; 16], 0x42, security)
}

/// Bytes from a server, handed over in pieces of at most `piece`.
fn feed(stream: &mut VMessStream, wire: &[u8], piece: usize, room: usize) -> Result<Vec<u8>, String> {
    let mut got = Vec::new();
    let mut at = 0;
    loop {
        match stream.poll_read(room) {
            ReadStep::Deliver(data) => {
                if data.is_empty() {
                    return Ok(got);
                }
                got.extend_from_slice(&data);
            }
            ReadStep::Fill(n) => {
                let end = (at + n.min(piece)).min(wire.len());
                if at == end {
                    return Ok(got);
                }
                stream.on_data(&wire[at..end]);
                at = end;
            }
            ReadStep::Fail(e) => return Err(e.message()),
        }
    }
}

/// What a session writes for some data, taken off in pieces of `piece`.
fn write_all(stream: &mut VMessStream, data: &[u8], piece: usize) -> Vec<u8> {
    let mut wire = Vec::new();
    let mut sent = 0;
    while sent < data.len() {
        match stream.poll_write(&data[sent..]) {
            WriteStep::Done(n) => sent += n,
            WriteStep::Drain => {
                while !stream.pending().is_empty() {
                    let n = stream.pending().len().min(piece);
                    wire.extend_from_slice(&stream.pending()[..n]);
                    stream.on_written(n).ok().unwrap();
                }
                if let Some(n) = stream.finish_write() {
                    sent += n;
                }
            }
            WriteStep::Fail(e) => panic!("{}", e.message()),
        }
    }
    wire
}

/// A server that sends every chunk back.
fn echo(wire: &[u8], security: VMessSecurity) -> Vec<u8> {
    let dec = VMessChunkCipher::new(security, &[1; 16], &[2; 16]);
    let enc = VMessChunkCipher::new(security, &[3; 16], &[4; 16]);
    let mut out = seal_response_header(0x42, &[3; 16], &[4; 16]);
    let mut at = 0;
    let mut count = 0u16;
    while at < wire.len() {
        let len = u16::from_be_bytes([wire[at], wire[at + 1]]) as usize;
        assert!(len <= 16384, "wire chunk exceeds the max chunk size: {}", len);
        let mut chunk = wire[at + 2..at + 2 + len].to_vec();
        at += 2 + len;
        assert!(dec.decrypt_in_place(count, &mut chunk));
        assert!(enc.encrypt_in_place(count, &mut chunk));
        count = count.wrapping_add(1);
        out.extend_from_slice(&(chunk.len() as u16).to_be_bytes());
        out.extend_from_slice(&chunk);
    }
    out
}

#[test]
fn test_vmess_response_auth_mismatch_fails_connect() {
    let mut stream = session(VMessSecurity::Unencrypted);
    let wire = seal_response_header(0x42 ^ 0xFF, &[3; 16], &[4; 16]);
    let err = feed(&mut stream, &wire, usize::MAX, 16).err().unwrap();
    assert!(err.contains("auth mismatch"), "unexpected error: {}", err);
    // The error is told once; then the stream is over.
    assert!(matches!(stream.poll_read(16), ReadStep::Deliver(d) if d.is_empty()));
}

#[test]
fn test_vmess_response_auth_match_connects() {
    let mut stream = session(VMessSecurity::Unencrypted);
    let mut wire = seal_response_header(0x42, &[3; 16], &[4; 16]);
    wire.extend_from_slice(&4u16.to_be_bytes());
    wire.extend_from_slice(b"pong");
    assert_eq!(feed(&mut stream, &wire, usize::MAX, 64).unwrap(), b"pong");
}

#[test]
fn tampered_answer_is_an_error() {
    let mut stream = session(VMessSecurity::Unencrypted);
    let mut wire = seal_response_header(0x42, &[3; 16], &[4; 16]);
    wire[0] ^= 1;
    assert!(feed(&mut stream, &wire, usize::MAX, 64).is_err());
}

#[test]
fn answer_that_ends_early_is_an_error() {
    let mut stream = session(VMessSecurity::Unencrypted);
    stream.on_data(&[0; 5]);
    stream.on_eof();
    assert!(matches!(stream.poll_read(16), ReadStep::Fail(_)));
}

#[test]
fn nothing_is_written_after_shutdown() {
    let mut stream = session(VMessSecurity::Unencrypted);
    stream.on_shutdown();
    assert!(matches!(stream.poll_write(b"x"), WriteStep::Fail(_)));
}

#[test]
fn test_vmess_over_ws_byte_level_roundtrip() {
    let mut ws = WsStream::new(vec![]);
    let mut stream = session(VMessSecurity::Unencrypted);

    // The header and a chunk ride in masked frames.
    let mut inner = b"hdr".to_vec();
    inner.extend_from_slice(&write_all(&mut stream, b"ping", usize::MAX));
    let mut wire = Vec::new();
    let mut sent = 0;
    while sent < inner.len() {
        match ws.poll_write(&inner[sent..]) {
            WsWrite::Done(n) => sent += n,
            WsWrite::Drain => {
                let n = ws.pending().len();
                wire.extend_from_slice(ws.pending());
                if n > 0 {
                    ws.on_written(n).ok().unwrap();
                }
                if let Some(n) = ws.finish_write() {
                    sent += n;
                }
            }
            WsWrite::Fail(e) => panic!("{}", e.message()),
        }
    }
    let frame = read_frame(&wire).ok().unwrap().unwrap();
    assert!(wire[1] & 0x80 != 0, "client frame must be masked");
    assert_eq!(&frame.payload[..3], b"hdr");
    let len = u16::from_be_bytes([frame.payload[3], frame.payload[4]]) as usize;
    assert_eq!(&frame.payload[5..5 + len], b"ping");

    // The answer comes back in frames, and its bytes go to the session.
    let mut answer = seal_response_header(0x42, &[3; 16], &[4; 16]);
    answer.extend_from_slice(&4u16.to_be_bytes());
    answer.extend_from_slice(b"pong");
    let mut wire = encode_frame_with_key(OPCODE_BINARY, &answer[..20], None);
    wire.extend_from_slice(&encode_frame_with_key(OPCODE_BINARY, &answer[20..], None));
    let mut plain = Vec::new();
    let mut at = 0;
    while plain.len() < answer.len() {
        match ws.poll_read(7) {
            WsRead::Deliver(data) => plain.extend_from_slice(&data),
            WsRead::Fill(n) => {
                ws.on_data(&wire[at..at + n]);
                at += n;
            }
            _ => panic!("the frames are sound"),
        }
    }
    assert_eq!(feed(&mut stream, &plain, usize::MAX, 64).unwrap(), b"pong");
}

#[test]
fn test_vmess_stream_aes_multichunk_roundtrip() {
    let mut stream = session(VMessSecurity::Aes128Gcm);
    let data: Vec<u8> = (0..200_000u32).map(|i| (i % 251) as u8).collect();
    let wire = write_all(&mut stream, &data, usize::MAX);
    let answer = echo(&wire, VMessSecurity::Aes128Gcm);
    assert_eq!(feed(&mut stream, &answer, usize::MAX, 65536).unwrap(), data);
}

#[test]
fn test_vmess_stream_read_tolerates_bytewise_delivery() {
    let mut stream = session(VMessSecurity::Aes128Gcm);
    let mut wire = seal_response_header(0x42, &[3; 16], &[4; 16]);
    let mut chunk = b"trickle-vmess".to_vec();
    let enc = VMessChunkCipher::new(VMessSecurity::Aes128Gcm, &[3; 16], &[4; 16]);
    assert!(enc.encrypt_in_place(0, &mut chunk));
    wire.extend_from_slice(&(chunk.len() as u16).to_be_bytes());
    wire.extend_from_slice(&chunk);
    assert_eq!(feed(&mut stream, &wire, 1, 13).unwrap(), b"trickle-vmess");
}

#[test]
fn sealing_behind_a_prefix_leaves_the_prefix() {
    for security in [
        VMessSecurity::Aes128Gcm,
        VMessSecurity::Chacha20Poly1305,
        VMessSecurity::Unencrypted,
    ] {
        let cipher = VMessChunkCipher::new(security, &[3; 16], &[4; 16]);
        let mut whole = b"payload".to_vec();
        assert!(cipher.encrypt_in_place(7, &mut whole));
        let mut behind = b"\x01\x02payload".to_vec();
        assert!(cipher.encrypt_payload_in_place(7, &mut behind, 2));
        assert_eq!(&behind[..2], &[1, 2]);
        assert_eq!(&behind[2..], &whole[..]);
    }
}

#[test]
fn test_vmess_stream_chunk_delivered_across_small_reads() {
    let mut stream = session(VMessSecurity::Chacha20Poly1305);
    let payload: Vec<u8> = (0..5000u32).map(|i| (i % 253) as u8).collect();
    let mut wire = seal_response_header(0x42, &[3; 16], &[4; 16]);
    let mut chunk = payload.clone();
    let enc = VMessChunkCipher::new(VMessSecurity::Chacha20Poly1305, &[3; 16], &[4; 16]);
    assert!(enc.encrypt_in_place(0, &mut chunk));
    wire.extend_from_slice(&(chunk.len() as u16).to_be_bytes());
    wire.extend_from_slice(&chunk);
    assert_eq!(feed(&mut stream, &wire, usize::MAX, 700).unwrap(), payload);
}

#[test]
fn test_vmess_stream_pended_write_completes() {
    let mut stream = session(VMessSecurity::Aes128Gcm);
    let data: Vec<u8> = (0..40_000u32).map(|i| (i % 239) as u8).collect();
    let wire = write_all(&mut stream, &data, 1024);
    let answer = echo(&wire, VMessSecurity::Aes128Gcm);
    assert_eq!(feed(&mut stream, &answer, 1024, 4096).unwrap(), data);
}

/// An answer of two chunks, and where the second begins.
fn two_chunks() -> (Vec<u8>, usize) {
    let enc = VMessChunkCipher::new(VMessSecurity::Aes128Gcm, &[3; 16], &[4; 16]);
    let mut wire = seal_response_header(0x42, &[3; 16], &[4; 16]);
    let mut second = 0;
    for (i, part) in [&b"first"[..], &b"second"[..]].iter().enumerate() {
        second = wire.len();
        let mut chunk = part.to_vec();
        assert!(enc.encrypt_in_place(i as u16, &mut chunk));
        wire.extend_from_slice(&(chunk.len() as u16).to_be_bytes());
        wire.extend_from_slice(&chunk);
    }
    (wire, second)
}

#[test]
fn rooms_and_pieces_do_not_matter() {
    let (wire, _) = two_chunks();
    for piece in [1, 7, usize::MAX] {
        for room in [1, 3, 64] {
            let mut stream = session(VMessSecurity::Aes128Gcm);
            assert_eq!(feed(&mut stream, &wire, piece, room).unwrap(), b"firstsecond");
        }
    }
}

#[test]
fn chunk_that_does_not_open_ends_the_stream() {
    let (mut wire, second) = two_chunks();
    wire[second + 2] ^= 1;
    let mut stream = session(VMessSecurity::Aes128Gcm);
    assert_eq!(feed(&mut stream, &wire, usize::MAX, 64).unwrap(), b"first");
    assert!(matches!(stream.poll_read(64), ReadStep::Deliver(d) if d.is_empty()));
}
