//! WebSocket: the upgrade handshake and the frame codec of a byte stream.

use crate::config;
use crate::config::WsConfig;
use crate::crypto;
use crate::net;
use crate::proxy::http;
use crate::text;
use vstd::prelude::*;
use vstd::string::StringSliceAdditionalSpecFns;
use vstd::utf8::*;

verus! {

broadcast use {
    vstd::seq::group_seq_axioms,
    vstd::slice::group_slice_axioms,
    vstd::array::group_array_axioms,
    vstd::string::group_string_axioms,
    vstd::std_specs::vec::group_vec_axioms,
};

pub const OPCODE_CONT: u8 = 0x0;

pub const OPCODE_TEXT: u8 = 0x1;

pub const OPCODE_BINARY: u8 = 0x2;

pub const OPCODE_CLOSE: u8 = 0x8;

pub const OPCODE_PING: u8 = 0x9;

pub const OPCODE_PONG: u8 = 0xA;

/// The longest payload that a frame may have.
pub const MAX_FRAME_PAYLOAD: u64 = 0x400_0000;

/// The most bytes of a write that go into one frame.
pub const WRITE_BUF_SIZE: usize = 16384;

/// The most bytes that are read in search of the end of a response head.
pub const MAX_HANDSHAKE_RESPONSE: usize = 8192;

// ---------------------------------------------------------------------------
// Frames
// ---------------------------------------------------------------------------

/// A payload with a repeating mask laid over it.
pub open spec fn masked(payload: Seq<u8>, key: Seq<u8>) -> Seq<u8> {
    Seq::new(payload.len(), |i: int| payload[i] ^ key[i % 4])
}

/// The second byte of a frame and the extended length behind it.
pub open spec fn length_bytes(len: nat, mask: bool) -> Seq<u8> {
    let bit: int = if mask { 128 } else { 0 };
    if len < 126 {
        seq![(bit + len) as u8]
    } else if len <= 0xffff {
        seq![(bit + 126) as u8] + net::be_bytes(len, 2)
    } else {
        seq![(bit + 127) as u8] + net::be_bytes(len, 8)
    }
}

/// A final frame on the wire.
pub open spec fn frame_bytes(opcode: u8, payload: Seq<u8>, key: Option<Seq<u8>>) -> Seq<u8> {
    seq![0x80u8 | opcode] + length_bytes(payload.len(), key is Some) + match key {
        Some(k) => k + masked(payload, k),
        None => payload,
    }
}

/// How long the header of a frame is, as far as its first bytes tell.
pub open spec fn header_len(raw: Seq<u8>) -> nat {
    if raw.len() < 2 {
        2
    } else {
        let code = raw[1] % 128;
        let ext: nat = if code == 126 {
            2
        } else if code == 127 {
            8
        } else {
            0
        };
        2 + ext + if raw[1] >= 128 {
            4nat
        } else {
            0nat
        }
    }
}

/// The payload length that a complete header announces.
pub open spec fn announced_len(raw: Seq<u8>) -> nat {
    let code = raw[1] % 128;
    if code == 126 {
        net::be_value(raw.subrange(2, 4))
    } else if code == 127 {
        net::be_value(raw.subrange(2, 10))
    } else {
        code as nat
    }
}

/// The header is complete.
pub open spec fn has_header(raw: Seq<u8>) -> bool {
    raw.len() >= header_len(raw)
}

/// The header is complete and announces too long a payload.
pub open spec fn is_too_large(raw: Seq<u8>) -> bool {
    has_header(raw) && announced_len(raw) > MAX_FRAME_PAYLOAD
}

/// How many bytes are known to be missing from a frame.
pub open spec fn missing(raw: Seq<u8>) -> nat {
    if !has_header(raw) {
        (header_len(raw) - raw.len()) as nat
    } else if raw.len() < header_len(raw) + announced_len(raw) {
        (header_len(raw) + announced_len(raw) - raw.len()) as nat
    } else {
        0
    }
}

/// The opcode of a frame.
pub open spec fn opcode_of(raw: Seq<u8>) -> u8 {
    raw[0] % 16
}

/// The mask of a frame, if it has one.
pub open spec fn mask_of(raw: Seq<u8>) -> Option<Seq<u8>> {
    if raw[1] >= 128 {
        Some(raw.subrange(header_len(raw) - 4, header_len(raw) as int))
    } else {
        None
    }
}

/// The payload of a complete frame, without its mask.
pub open spec fn payload_of(raw: Seq<u8>) -> Seq<u8> {
    let body = raw.skip(header_len(raw) as int);
    match mask_of(raw) {
        Some(k) => masked(body, k),
        None => body,
    }
}

/// Appends a payload with a repeating mask laid over it.
pub fn mask_payload_into(out: &mut Vec<u8>, payload: &[u8], key: &[u8])
    requires
        key@.len() == 4,
    ensures
        final(out)@ == old(out)@ + masked(payload@, key@),
{
    let mut i: usize = 0;
    while i < payload.len()
        invariant
            i <= payload@.len(),
            key@.len() == 4,
            out@ == old(out)@ + masked(payload@, key@).take(i as int),
        decreases payload@.len() - i,
    {
        let k: usize = i % 4;
        out.push(payload[i] ^ key[k]);
        assert(out@ =~= old(out)@ + masked(payload@, key@).take(i + 1));
        i += 1;
    }
    assert(masked(payload@, key@).take(i as int) =~= masked(payload@, key@));
}

fn push_length(out: &mut Vec<u8>, len: usize, mask: bool)
    ensures
        final(out)@ == old(out)@ + length_bytes(len as nat, mask),
{
    let bit: u8 = if mask { 128 } else { 0 };
    if len < 126 {
        out.push(bit + len as u8);
    } else if len <= 0xffff {
        out.push(bit + 126);
        net::push_be(out, len as u128, 2);
    } else {
        out.push(bit + 127);
        net::push_be(out, len as u128, 8);
    }
    assert(out@ =~= old(out)@ + length_bytes(len as nat, mask));
}

/// Appends a final frame with the given mask.
pub fn encode_frame_into(out: &mut Vec<u8>, opcode: u8, payload: &[u8], key: Option<&[u8]>)
    requires
        key matches Some(k) ==> k@.len() == 4,
    ensures
        final(out)@ == old(out)@ + frame_bytes(
            opcode,
            payload@,
            match key {
                Some(k) => Some(k@),
                None => None,
            },
        ),
{
    out.push(0x80 | opcode);
    match key {
        Some(k) => {
            push_length(out, payload.len(), true);
            text::append_bytes(out, k);
            mask_payload_into(out, payload, k);
        },
        None => {
            push_length(out, payload.len(), false);
            text::append_bytes(out, payload);
        },
    }
    assert(out@ =~= old(out)@ + frame_bytes(
        opcode,
        payload@,
        match key {
            Some(k) => Some(k@),
            None => None,
        },
    ));
}

/// A final frame with the given mask.
pub fn encode_frame_with_key(opcode: u8, payload: &[u8], mask_key: Option<[u8; 4]>) -> (r: Vec<u8>)
    ensures
        r@ == frame_bytes(
            opcode,
            payload@,
            match mask_key {
                Some(k) => Some(k@),
                None => None,
            },
        ),
{
    let mut out: Vec<u8> = Vec::new();
    match &mask_key {
        Some(k) => encode_frame_into(&mut out, opcode, payload, Some(k.as_slice())),
        None => encode_frame_into(&mut out, opcode, payload, None),
    }
    assert(out@ =~= frame_bytes(
        opcode,
        payload@,
        match mask_key {
            Some(k) => Some(k@),
            None => None,
        },
    ));
    out
}

/// A client frame, its mask left to chance.
pub fn encode_client_frame(opcode: u8, payload: &[u8]) -> (r: Vec<u8>)
    ensures
        exists|key: Seq<u8>|
            key.len() == 4 && r@ == #[trigger] frame_bytes(opcode, payload@, Some(key)),
{
    let mut out: Vec<u8> = Vec::new();
    let key = crypto::random_bytes(4);
    encode_frame_into(&mut out, opcode, payload, Some(key.as_slice()));
    assert(out@ =~= frame_bytes(opcode, payload@, Some(key@)));
    out
}

/// The header of a frame as it is read.
#[derive(Debug, Clone, Copy)]
pub struct FrameHeader {
    pub opcode: u8,
    pub len: usize,
    /// Where the payload begins.
    pub start: usize,
    pub masked: bool,
}

/// How long the header of a frame is, as far as its first bytes tell.
fn known_header_len(raw: &[u8]) -> (r: usize)
    ensures
        r == header_len(raw@),
        r <= 14,
{
    if raw.len() < 2 {
        return 2;
    }
    let code: u8 = raw[1] % 128;
    let ext: usize = if code == 126 {
        2
    } else if code == 127 {
        8
    } else {
        0
    };
    let mask: usize = if raw[1] >= 128 { 4 } else { 0 };
    2 + ext + mask
}

/// The payload length that a complete header announces.
fn read_announced_len(raw: &[u8]) -> (r: u64)
    requires
        has_header(raw@),
    ensures
        r == announced_len(raw@),
{
    let code: u8 = raw[1] % 128;
    if code == 126 {
        let part = vstd::slice::slice_subrange(raw, 2, 4);
        proof {
            net::lemma_be_value_fits(part@);
        }
        net::read_be(part) as u64
    } else if code == 127 {
        let part = vstd::slice::slice_subrange(raw, 2, 10);
        proof {
            net::lemma_be_value_fits(part@);
        }
        net::read_be(part) as u64
    } else {
        code as u64
    }
}

/// Reads a complete header; a payload that is too long is refused with its
/// length.
pub fn parse_header(raw: &[u8]) -> (r: Result<FrameHeader, u64>)
    requires
        has_header(raw@),
    ensures
        r is Ok == !is_too_large(raw@),
        r matches Ok(h) ==> h.opcode == opcode_of(raw@) && h.len == announced_len(raw@) && h.start
            == header_len(raw@) && h.masked == (raw@[1] >= 128),
        r matches Err(n) ==> n == announced_len(raw@),
{
    let len: u64 = read_announced_len(raw);
    if len > MAX_FRAME_PAYLOAD {
        return Err(len);
    }
    Ok(
        FrameHeader {
            opcode: raw[0] % 16,
            len: len as usize,
            start: known_header_len(raw),
            masked: raw[1] >= 128,
        },
    )
}

/// How many bytes are known to be missing from a frame that is not too large.
fn missing_bytes(raw: &[u8]) -> (r: usize)
    requires
        !is_too_large(raw@),
    ensures
        r == missing(raw@),
        r <= MAX_FRAME_PAYLOAD + 14,
{
    let h: usize = known_header_len(raw);
    if raw.len() < h {
        return h - raw.len();
    }
    let len: u64 = read_announced_len(raw);
    let total: usize = h + len as usize;
    if raw.len() < total {
        total - raw.len()
    } else {
        0
    }
}

/// The payload of a complete frame, without its mask.
fn read_payload(raw: &[u8]) -> (r: Vec<u8>)
    requires
        has_header(raw@),
    ensures
        r@ == payload_of(raw@),
{
    let h: usize = known_header_len(raw);
    let body = vstd::slice::slice_subrange(raw, h, raw.len());
    assert(body@ =~= raw@.skip(h as int));
    if raw[1] >= 128 {
        let key = vstd::slice::slice_subrange(raw, h - 4, h);
        let mut out: Vec<u8> = Vec::new();
        mask_payload_into(&mut out, body, key);
        assert(out@ =~= payload_of(raw@));
        out
    } else {
        vstd::slice::slice_to_vec(body)
    }
}

// ---------------------------------------------------------------------------
// Laws of frames
// ---------------------------------------------------------------------------

/// A mask laid over a payload twice leaves it as it was.
pub proof fn law_mask_twice(payload: Seq<u8>, key: Seq<u8>)
    requires
        key.len() == 4,
    ensures
        masked(masked(payload, key), key) == payload,
{
    assert forall|i: int| 0 <= i < payload.len() implies (payload[i] ^ key[i % 4]) ^ key[i % 4]
        == payload[i] by {
        let a = payload[i];
        let b = key[i % 4];
        assert((a ^ b) ^ b == a) by (bit_vector);
    }
    assert(masked(masked(payload, key), key) =~= payload);
}

/// What the header of a written frame says.
proof fn lemma_frame_header(opcode: u8, payload: Seq<u8>, key: Option<Seq<u8>>)
    requires
        opcode < 16,
        payload.len() <= MAX_FRAME_PAYLOAD,
        key matches Some(k) ==> k.len() == 4,
    ensures
        ({
            let raw = frame_bytes(opcode, payload, key);
            &&& raw.len() == header_len(raw) + payload.len()
            &&& opcode_of(raw) == opcode
            &&& announced_len(raw) == payload.len()
            &&& mask_of(raw) == key
            &&& raw.skip(header_len(raw) as int) == match key {
                Some(k) => masked(payload, k),
                None => payload,
            }
        }),
{
    let raw = frame_bytes(opcode, payload, key);
    let len = payload.len();
    net::lemma_be_bytes_len(len, 2);
    net::lemma_be_bytes_len(len, 8);
    net::lemma_powers_of_256();
    if len <= 0xffff {
        net::lemma_be_round_trip(len, 2);
    }
    net::lemma_be_round_trip(len, 8);
    assert((0x80u8 | opcode) % 16 == opcode) by (bit_vector)
        requires
            opcode < 16,
    ;
    let bit: int = if key is Some { 128 } else { 0 };
    if len < 126 {
        assert(raw[1] == (bit + len) as u8);
    } else if len <= 0xffff {
        assert(raw[1] == (bit + 126) as u8);
        assert(raw.subrange(2, 4) =~= net::be_bytes(len, 2));
    } else {
        assert(raw[1] == (bit + 127) as u8);
        assert(raw.subrange(2, 10) =~= net::be_bytes(len, 8));
    }
    match key {
        Some(k) => {
            assert(raw.subrange(header_len(raw) - 4, header_len(raw) as int) =~= k);
            assert(raw.skip(header_len(raw) as int) =~= masked(payload, k));
        },
        None => {
            assert(raw.skip(header_len(raw) as int) =~= payload);
        },
    }
}

/// A frame is read back as it was written: nothing is missing from it, its
/// opcode and payload are those given, and every part of it that is shorter
/// lacks something.
pub proof fn law_frame_round_trip(opcode: u8, payload: Seq<u8>, key: Option<Seq<u8>>)
    requires
        opcode < 16,
        payload.len() <= MAX_FRAME_PAYLOAD,
        key matches Some(k) ==> k.len() == 4,
    ensures
        ({
            let raw = frame_bytes(opcode, payload, key);
            &&& missing(raw) == 0
            &&& !is_too_large(raw)
            &&& opcode_of(raw) == opcode
            &&& payload_of(raw) == payload
            &&& forall|n: int| 0 <= n < raw.len() ==> missing(#[trigger] raw.take(n)) > 0
        }),
{
    let raw = frame_bytes(opcode, payload, key);
    lemma_frame_header(opcode, payload, key);
    if key is Some {
        law_mask_twice(payload, key->0);
    }
    assert forall|n: int| 0 <= n < raw.len() implies missing(#[trigger] raw.take(n)) > 0 by {
        lemma_prefix_lacks(raw, n);
    }
}

/// A complete header stays the same in every part of the frame that has it.
proof fn lemma_prefix_lacks(raw: Seq<u8>, n: int)
    requires
        raw.len() >= 2,
        has_header(raw),
        raw.len() == header_len(raw) + announced_len(raw),
        0 <= n < raw.len(),
    ensures
        missing(raw.take(n)) > 0,
        n < 2 ==> missing(raw.take(n)) == 2 - n,
        2 <= n < header_len(raw) ==> missing(raw.take(n)) == header_len(raw) - n,
        header_len(raw) <= n ==> missing(raw.take(n)) == raw.len() - n,
        !is_too_large(raw) ==> !is_too_large(raw.take(n)),
{
    let p = raw.take(n);
    if n >= 2 {
        assert(p[1] == raw[1]);
        assert(header_len(p) == header_len(raw));
        if n >= header_len(raw) {
            if raw[1] % 128 == 126 {
                assert(p.subrange(2, 4) =~= raw.subrange(2, 4));
            } else if raw[1] % 128 == 127 {
                assert(p.subrange(2, 10) =~= raw.subrange(2, 10));
            }
            assert(announced_len(p) == announced_len(raw));
        }
    }
}

// ---------------------------------------------------------------------------
// Stream
// ---------------------------------------------------------------------------

/// Why a WebSocket handshake or stream failed.
#[derive(Debug)]
pub enum WsError {
    /// The server did not switch protocols; its status line.
    UpgradeRejected(String),
    /// The response has no accept header.
    MissingAccept,
    /// The response accepts another key.
    AcceptMismatch { got: String, expected: String },
    /// The response head has no end in sight.
    ResponseTooLarge,
    /// The transport ended before the end of the response head.
    ClosedInHandshake,
    /// A frame announces too long a payload; its length.
    FrameTooLarge(u64),
    /// The transport ended inside the header of a frame.
    EofInHeader,
    /// The transport ended inside the payload of a frame.
    EofInPayload,
    /// The transport took no bytes of a frame.
    WriteZero,
    /// The stream was shut down before the write.
    Closed,
}

/// What a WebSocket stream holds.
#[verifier::ext_equal]
pub struct WsModel {
    /// Bytes that came with the handshake response and were not read yet.
    pub leftover: Seq<u8>,
    /// The frame that is arriving, as far as it has arrived.
    pub raw: Seq<u8>,
    /// Payload that waits for the reader.
    pub ready: Seq<u8>,
    /// The peer closed the stream.
    pub closing: bool,
    /// Nothing more will be delivered.
    pub eof: bool,
    /// Bytes that wait for the transport.
    pub pending: Seq<u8>,
    /// How many of the writer's bytes the pending frame carries.
    pub in_flight: Option<usize>,
    /// A control frame must reach the transport before more is read.
    pub ctrl_flush: bool,
    /// A close frame was sent.
    pub close_sent: bool,
    /// The transport was shut down.
    pub closed: bool,
}

/// The stream once a whole frame has arrived; an answer is masked with `key`.
pub open spec fn handled(m: WsModel, opcode: u8, payload: Seq<u8>, key: Seq<u8>) -> WsModel {
    if opcode == OPCODE_BINARY || opcode == OPCODE_CONT || opcode == OPCODE_TEXT {
        WsModel { ready: payload, ..m }
    } else if opcode == OPCODE_PING {
        WsModel {
            pending: m.pending + frame_bytes(OPCODE_PONG, payload, Some(key)),
            ctrl_flush: true,
            ..m
        }
    } else if opcode == OPCODE_CLOSE {
        WsModel {
            pending: if m.close_sent {
                m.pending
            } else {
                m.pending + frame_bytes(OPCODE_CLOSE, seq![], Some(key))
            },
            close_sent: true,
            ctrl_flush: true,
            closing: true,
            ..m
        }
    } else {
        m
    }
}

/// The stream once more bytes of a frame have arrived.
pub open spec fn absorbed(m: WsModel, data: Seq<u8>, key: Seq<u8>) -> WsModel {
    let raw = m.raw + data;
    if is_too_large(raw) || missing(raw) > 0 {
        WsModel { raw, ..m }
    } else {
        handled(WsModel { raw: seq![], ..m }, opcode_of(raw), payload_of(raw), key)
    }
}

/// The stream once more bytes of a frame have arrived, some mask laid over an
/// answer.
pub open spec fn absorbed_somehow(m: WsModel, data: Seq<u8>, after: WsModel) -> bool {
    exists|key: Seq<u8>| key.len() == 4 && after == #[trigger] absorbed(m, data, key)
}

/// The smaller of two numbers.
pub open spec fn smaller(a: nat, b: nat) -> nat {
    if a < b {
        a
    } else {
        b
    }
}

/// The stream once a data frame was made of the first `n` bytes of a write.
pub open spec fn written(m: WsModel, data: Seq<u8>, n: nat, key: Seq<u8>) -> WsModel {
    WsModel {
        pending: frame_bytes(OPCODE_BINARY, data.take(n as int), Some(key)),
        in_flight: Some(n as usize),
        ..m
    }
}

/// The stream once a shutdown has begun: the close frame stands behind what
/// is pending, unless one was sent.
pub open spec fn shutting_down(m: WsModel, key: Seq<u8>) -> WsModel {
    WsModel {
        pending: if m.close_sent {
            m.pending
        } else {
            m.pending + frame_bytes(OPCODE_CLOSE, seq![], Some(key))
        },
        close_sent: true,
        ..m
    }
}

/// The stream takes bytes of a frame.
pub open spec fn is_filling(m: WsModel) -> bool {
    m.ready.len() == 0 && !m.eof && !m.ctrl_flush && !m.closing && !is_too_large(m.raw)
}

/// What a reader's request comes to.
#[derive(Debug)]
pub enum ReadStep {
    /// These bytes, none at the end of the stream.
    Deliver(Vec<u8>),
    /// The pending bytes must reach the transport first.
    Flush,
    /// At most this many bytes are needed from the transport first.
    Fill(usize),
    /// Bytes of the handshake response were read; ask again.
    Again,
    /// A frame is refused.
    Fail(WsError),
}

/// What a writer's request comes to.
#[derive(Debug)]
pub enum WriteStep {
    /// This many bytes are written.
    Done(usize),
    /// The pending bytes must reach the transport first.
    Drain,
    /// The write is refused.
    Fail(WsError),
}

/// A WebSocket byte stream between a user and a transport.
///
/// The transport itself is not part of it: `poll_read` and `poll_write` say
/// what is needed from the transport, and the `on_` functions take what the
/// transport did.
pub struct WsStream {
    pub read_pending: Vec<u8>,
    pub read_pending_pos: usize,
    pub raw: Vec<u8>,
    pub payload: Vec<u8>,
    pub payload_pos: usize,
    pub closing: bool,
    pub read_eof: bool,
    pub out: Vec<u8>,
    pub out_pos: usize,
    pub write_in_flight: Option<usize>,
    pub ctrl_flush: bool,
    pub close_sent: bool,
    pub write_closed: bool,
}

impl View for WsStream {
    type V = WsModel;

    open spec fn view(&self) -> WsModel {
        WsModel {
            leftover: self.read_pending@.skip(self.read_pending_pos as int),
            raw: self.raw@,
            ready: self.payload@.skip(self.payload_pos as int),
            closing: self.closing,
            eof: self.read_eof,
            pending: self.out@.skip(self.out_pos as int),
            in_flight: self.write_in_flight,
            ctrl_flush: self.ctrl_flush,
            close_sent: self.close_sent,
            closed: self.write_closed,
        }
    }
}

impl WsStream {
    /// The positions are inside their buffers.
    pub open spec fn in_bounds(self) -> bool {
        &&& self.read_pending_pos <= self.read_pending@.len()
        &&& self.payload_pos <= self.payload@.len()
        &&& self.out_pos <= self.out@.len()
    }

    /// The positions are inside their buffers, and the frame that is arriving
    /// lacks something.
    pub open spec fn wf(self) -> bool {
        &&& self.in_bounds()
        &&& is_too_large(self.raw@) || missing(self.raw@) > 0
    }

    /// A stream at its start, with what came behind the handshake response.
    pub fn new(handshake_leftover: Vec<u8>) -> (r: Self)
        ensures
            r.wf(),
            r@ == (WsModel {
                leftover: handshake_leftover@,
                raw: seq![],
                ready: seq![],
                closing: false,
                eof: false,
                pending: seq![],
                in_flight: None,
                ctrl_flush: false,
                close_sent: false,
                closed: false,
            }),
    {
        let r = WsStream {
            read_pending: handshake_leftover,
            read_pending_pos: 0,
            raw: Vec::new(),
            payload: Vec::new(),
            payload_pos: 0,
            closing: false,
            read_eof: false,
            out: Vec::new(),
            out_pos: 0,
            write_in_flight: None,
            ctrl_flush: false,
            close_sent: false,
            write_closed: false,
        };
        assert(r@.leftover =~= handshake_leftover@);
        assert(r@.ready =~= seq![]);
        assert(r@.pending =~= seq![]);
        r
    }

    /// Forgets the frame that has been handled.
    pub fn reset_frame(&mut self)
        ensures
            final(self)@ == (WsModel { raw: seq![], ready: seq![], ..old(self)@ }),
            old(self).in_bounds() ==> final(self).wf(),
    {
        self.raw = Vec::new();
        self.payload = Vec::new();
        self.payload_pos = 0;
        assert(self@.ready =~= seq![]);
    }

    /// The bytes that wait for the transport.
    pub fn pending(&self) -> (r: &[u8])
        requires
            self.wf(),
        ensures
            r@ == self@.pending,
    {
        let r = vstd::slice::slice_subrange(self.out.as_slice(), self.out_pos, self.out.len());
        assert(r@ =~= self@.pending);
        r
    }

    fn queue_frame(&mut self, opcode: u8, payload: &[u8], key: &[u8])
        requires
            old(self).out_pos <= old(self).out@.len(),
            key@.len() == 4,
        ensures
            final(self)@ == (WsModel {
                pending: old(self)@.pending + frame_bytes(opcode, payload@, Some(key@)),
                ..old(self)@
            }),
            old(self).wf() ==> final(self).wf(),
    {
        encode_frame_into(&mut self.out, opcode, payload, Some(key));
        assert(self@.pending =~= old(self)@.pending + frame_bytes(opcode, payload@, Some(key@)));
    }

    /// Bytes of a frame arrived, at most as many as were missing; an answer
    /// that the frame calls for is masked with `key`.
    pub fn on_data_with(&mut self, data: &[u8], key: [u8; 4])
        requires
            old(self).wf(),
            is_filling(old(self)@),
            data@.len() <= missing(old(self)@.raw),
        ensures
            final(self).wf(),
            final(self)@ == absorbed(old(self)@, data@, key@),
    {
        let ghost m = self@;
        text::append_bytes(&mut self.raw, data);
        let h: usize = known_header_len(self.raw.as_slice());
        if self.raw.len() < h {
            return;
        }
        let header = match parse_header(self.raw.as_slice()) {
            Ok(v) => v,
            Err(_) => {
                return;
            },
        };
        if self.raw.len() < header.start + header.len {
            return;
        }
        let payload = read_payload(self.raw.as_slice());
        self.reset_frame();
        assert(m.ready =~= seq![]);
        match header.opcode {
            OPCODE_BINARY | OPCODE_CONT | OPCODE_TEXT => {
                self.payload = payload;
                self.payload_pos = 0;
                assert(self@.ready =~= self.payload@);
            },
            OPCODE_PING => {
                self.queue_frame(OPCODE_PONG, payload.as_slice(), key.as_slice());
                self.ctrl_flush = true;
            },
            OPCODE_CLOSE => {
                if !self.close_sent {
                    let none: Vec<u8> = Vec::new();
                    assert(none@ =~= seq![]);
                    self.queue_frame(OPCODE_CLOSE, none.as_slice(), key.as_slice());
                    self.close_sent = true;
                }
                self.ctrl_flush = true;
                self.closing = true;
            },
            _ => {},
        }
    }

    /// Bytes of a frame arrived, at most as many as were missing; the mask of
    /// an answer is left to chance.
    pub fn on_data(&mut self, data: &[u8])
        requires
            old(self).wf(),
            is_filling(old(self)@),
            data@.len() <= missing(old(self)@.raw),
        ensures
            final(self).wf(),
            absorbed_somehow(old(self)@, data@, final(self)@),
    {
        let r = crypto::random_bytes(4);
        let key = [r[0], r[1], r[2], r[3]];
        assert(key@.len() == 4);
        self.on_data_with(data, key);
    }

    /// A reader asks for at most `room` bytes.
    pub fn poll_read(&mut self, room: usize) -> (r: ReadStep)
        requires
            old(self).wf(),
        ensures
            final(self).wf(),
            polled(old(self)@, room, r, final(self)@),
    {
        let ghost m = self@;
        if self.payload_pos < self.payload.len() {
            let rest: usize = self.payload.len() - self.payload_pos;
            let k: usize = if room < rest { room } else { rest };
            let part = vstd::slice::slice_subrange(
                self.payload.as_slice(),
                self.payload_pos,
                self.payload_pos + k,
            );
            let d = vstd::slice::slice_to_vec(part);
            assert(d@ =~= m.ready.take(k as int));
            self.payload_pos = self.payload_pos + k;
            assert(self@.ready =~= m.ready.skip(k as int));
            return ReadStep::Deliver(d);
        }
        assert(m.ready.len() == 0);
        if room == 0 || self.read_eof {
            return ReadStep::Deliver(Vec::new());
        }
        if self.ctrl_flush {
            return ReadStep::Flush;
        }
        if self.closing {
            self.read_eof = true;
            return ReadStep::Deliver(Vec::new());
        }
        let h: usize = known_header_len(self.raw.as_slice());
        if self.raw.len() >= h {
            match parse_header(self.raw.as_slice()) {
                Ok(_) => {},
                Err(len) => {
                    return ReadStep::Fail(WsError::FrameTooLarge(len));
                },
            }
        }
        let n: usize = missing_bytes(self.raw.as_slice());
        if self.read_pending_pos < self.read_pending.len() {
            let rest: usize = self.read_pending.len() - self.read_pending_pos;
            let k: usize = if n < rest { n } else { rest };
            let part = vstd::slice::slice_subrange(
                self.read_pending.as_slice(),
                self.read_pending_pos,
                self.read_pending_pos + k,
            );
            let d = vstd::slice::slice_to_vec(part);
            self.read_pending_pos = self.read_pending_pos + k;
            proof {
                assert(d@ =~= m.leftover.take(k as int));
                assert(self@ =~= (WsModel { leftover: m.leftover.skip(k as int), ..m }));
            }
            self.on_data(d.as_slice());
            return ReadStep::Again;
        }
        assert(m.leftover.len() == 0);
        ReadStep::Fill(n)
    }

    /// The transport reached its end where bytes of a frame were missing:
    /// between two frames a clean end, inside one an error.
    pub fn on_eof(&mut self) -> (r: Result<(), WsError>)
        requires
            old(self).wf(),
            is_filling(old(self)@),
        ensures
            final(self).wf(),
            ended(old(self)@, r, final(self)@),
    {
        if self.raw.len() == 0 {
            self.read_eof = true;
            return Ok(());
        }
        let h: usize = known_header_len(self.raw.as_slice());
        if self.raw.len() < h {
            Err(WsError::EofInHeader)
        } else {
            Err(WsError::EofInPayload)
        }
    }

    /// The flush that a reader waited for is done.
    pub fn on_ctrl_flushed(&mut self)
        requires
            old(self).wf(),
        ensures
            final(self).wf(),
            final(self)@ == (WsModel { ctrl_flush: false, ..old(self)@ }),
    {
        self.ctrl_flush = false;
    }

    /// The flush that a reader waited for failed: whether the reader is told.
    /// A stream that is closing just ends.
    pub fn on_ctrl_error(&mut self) -> (r: bool)
        requires
            old(self).wf(),
        ensures
            final(self).wf(),
            r == !old(self)@.closing,
            final(self)@ == (WsModel {
                pending: seq![],
                ctrl_flush: false,
                eof: old(self)@.eof || old(self)@.closing,
                ..old(self)@
            }),
    {
        self.out = Vec::new();
        self.out_pos = 0;
        assert(self@.pending =~= seq![]);
        self.ctrl_flush = false;
        if self.closing {
            self.read_eof = true;
            false
        } else {
            true
        }
    }

    /// A writer offers bytes; a frame made of them is masked with `key`. What
    /// is still on its way goes first.
    pub fn poll_write_with(&mut self, data: &[u8], key: [u8; 4]) -> (r: WriteStep)
        requires
            old(self).wf(),
        ensures
            final(self).wf(),
            offered(old(self)@, data@, key@, r, final(self)@),
    {
        if self.write_closed {
            return WriteStep::Fail(WsError::Closed);
        }
        if self.write_in_flight.is_some() || self.out_pos < self.out.len() {
            return WriteStep::Drain;
        }
        if data.len() == 0 {
            return WriteStep::Done(0);
        }
        let n: usize = if data.len() < WRITE_BUF_SIZE { data.len() } else { WRITE_BUF_SIZE };
        let part = vstd::slice::slice_subrange(data, 0, n);
        assert(part@ =~= data@.take(n as int));
        let ghost m = self@;
        self.queue_frame(OPCODE_BINARY, part, key.as_slice());
        assert(m.pending =~= seq![]);
        assert(self@.pending =~= frame_bytes(OPCODE_BINARY, data@.take(n as int), Some(key@)));
        self.write_in_flight = Some(n);
        WriteStep::Drain
    }

    /// A writer offers bytes; the mask is left to chance.
    pub fn poll_write(&mut self, data: &[u8]) -> (r: WriteStep)
        requires
            old(self).wf(),
        ensures
            final(self).wf(),
            exists|key: Seq<u8>|
                key.len() == 4 && #[trigger] offered(old(self)@, data@, key, r, final(self)@),
    {
        let r = crypto::random_bytes(4);
        let key = [r[0], r[1], r[2], r[3]];
        assert(key@.len() == 4);
        self.poll_write_with(data, key)
    }

    /// The transport took `n` of the pending bytes. Taking none is an error
    /// that drops them.
    pub fn on_written(&mut self, n: usize) -> (r: Result<(), WsError>)
        requires
            old(self).wf(),
            n <= old(self)@.pending.len(),
        ensures
            final(self).wf(),
            sent(old(self)@, n, r, final(self)@),
    {
        if n == 0 {
            self.out = Vec::new();
            self.out_pos = 0;
            assert(self@.pending =~= seq![]);
            return Err(WsError::WriteZero);
        }
        assert(self.out.len() == self.out@.len());
        self.out_pos = self.out_pos + n;
        assert(self@.pending =~= old(self)@.pending.skip(n as int));
        Ok(())
    }

    /// The transport failed to write: the pending bytes are dropped. A write
    /// that was waiting for them is given up with them, a flush or a shutdown
    /// leaves it.
    pub fn on_write_error(&mut self, writing: bool)
        requires
            old(self).wf(),
        ensures
            final(self).wf(),
            final(self)@ == (WsModel {
                pending: seq![],
                in_flight: if writing {
                    None
                } else {
                    old(self)@.in_flight
                },
                ..old(self)@
            }),
    {
        self.out = Vec::new();
        self.out_pos = 0;
        assert(self@.pending =~= seq![]);
        if writing {
            self.write_in_flight = None;
        }
    }

    /// The pending bytes reached the transport: the count to report to the
    /// writer whose frame they were, if any.
    pub fn finish_write(&mut self) -> (r: Option<usize>)
        requires
            old(self).wf(),
            old(self)@.pending.len() == 0,
        ensures
            final(self).wf(),
            finished(old(self)@, r, final(self)@),
    {
        self.write_in_flight.take()
    }

    /// A shutdown begins: the close frame, masked with `key`, is queued behind
    /// what is pending, unless one was sent.
    pub fn begin_shutdown_with(&mut self, key: [u8; 4])
        requires
            old(self).wf(),
        ensures
            final(self).wf(),
            final(self)@ == shutting_down(old(self)@, key@),
    {
        if !self.close_sent {
            let none: Vec<u8> = Vec::new();
            assert(none@ =~= seq![]);
            self.queue_frame(OPCODE_CLOSE, none.as_slice(), key.as_slice());
            self.close_sent = true;
        }
    }

    /// A shutdown begins; the mask of the close frame is left to chance.
    pub fn begin_shutdown(&mut self)
        requires
            old(self).wf(),
        ensures
            final(self).wf(),
            exists|key: Seq<u8>|
                key.len() == 4 && final(self)@ == #[trigger] shutting_down(old(self)@, key),
    {
        let r = crypto::random_bytes(4);
        let key = [r[0], r[1], r[2], r[3]];
        assert(key@.len() == 4);
        self.begin_shutdown_with(key);
    }

    /// The transport was shut down.
    pub fn on_shutdown(&mut self)
        requires
            old(self).wf(),
        ensures
            final(self).wf(),
            final(self)@ == (WsModel { closed: true, ..old(self)@ }),
    {
        self.write_closed = true;
    }
}

// ---------------------------------------------------------------------------
// Laws of the stream
// ---------------------------------------------------------------------------

/// A stream fed with bytes, each time as many as are missing at most.
pub open spec fn fed(m: WsModel, data: Seq<u8>, key: Seq<u8>) -> WsModel
    decreases data.len(),
{
    let n = missing(m.raw);
    if data.len() == 0 || n == 0 {
        m
    } else if data.len() <= n {
        absorbed(m, data, key)
    } else {
        fed(absorbed(m, data.take(n as int), key), data.skip(n as int), key)
    }
}

/// How the missing bytes of a frame are split on arrival does not matter.
pub proof fn law_arrival_in_pieces(m: WsModel, a: Seq<u8>, b: Seq<u8>, key: Seq<u8>)
    requires
        is_filling(m),
        a.len() + b.len() <= missing(m.raw),
        a.len() < missing(m.raw),
    ensures
        absorbed(absorbed(m, a, key), b, key) == absorbed(m, a + b, key),
{
    assert((m.raw + a) + b =~= m.raw + (a + b));
    lemma_still_missing(m.raw, a);
}

/// A frame that got fewer bytes than were missing still lacks some.
proof fn lemma_still_missing(raw: Seq<u8>, a: Seq<u8>)
    requires
        !is_too_large(raw),
        a.len() < missing(raw),
    ensures
        !is_too_large(raw + a),
        missing(raw + a) == missing(raw) - a.len(),
{
    let t = raw + a;
    if raw.len() >= 2 {
        assert(t[1] == raw[1]);
        if has_header(raw) {
            if raw[1] % 128 == 126 {
                assert(t.subrange(2, 4) =~= raw.subrange(2, 4));
            } else if raw[1] % 128 == 127 {
                assert(t.subrange(2, 10) =~= raw.subrange(2, 10));
            }
        }
    }
}

/// What one side writes as a data frame is what the other side delivers.
pub proof fn law_data_frame_round_trip(
    m: WsModel,
    payload: Seq<u8>,
    mask: Option<Seq<u8>>,
    key: Seq<u8>,
)
    requires
        is_filling(m),
        m.raw.len() == 0,
        0 < payload.len() <= MAX_FRAME_PAYLOAD,
        mask matches Some(k) ==> k.len() == 4,
    ensures
        fed(m, frame_bytes(OPCODE_BINARY, payload, mask), key) == (WsModel { ready: payload, ..m }),
{
    lemma_fed_whole_frame(m, OPCODE_BINARY, payload, mask, key);
    assert(m.raw =~= seq![]);
    assert(fed(m, frame_bytes(OPCODE_BINARY, payload, mask), key) =~= (WsModel {
        ready: payload,
        ..m
    }));
}

/// A ping is answered with a pong of the same payload, a close with a close,
/// once.
pub proof fn law_control_frames_are_answered(
    m: WsModel,
    payload: Seq<u8>,
    mask: Option<Seq<u8>>,
    key: Seq<u8>,
)
    requires
        is_filling(m),
        m.raw.len() == 0,
        payload.len() <= MAX_FRAME_PAYLOAD,
        mask matches Some(k) ==> k.len() == 4,
    ensures
        fed(m, frame_bytes(OPCODE_PING, payload, mask), key) == (WsModel {
            pending: m.pending + frame_bytes(OPCODE_PONG, payload, Some(key)),
            ctrl_flush: true,
            ..m
        }),
        fed(m, frame_bytes(OPCODE_CLOSE, payload, mask), key) == (WsModel {
            pending: if m.close_sent {
                m.pending
            } else {
                m.pending + frame_bytes(OPCODE_CLOSE, seq![], Some(key))
            },
            close_sent: true,
            ctrl_flush: true,
            closing: true,
            ..m
        }),
{
    assert(m.raw =~= seq![]);
    lemma_fed_whole_frame(m, OPCODE_PING, payload, mask, key);
    lemma_fed_whole_frame(m, OPCODE_CLOSE, payload, mask, key);
}

/// Feeding a whole frame has the effect of the frame.
proof fn lemma_fed_whole_frame(
    m: WsModel,
    opcode: u8,
    payload: Seq<u8>,
    mask: Option<Seq<u8>>,
    key: Seq<u8>,
)
    requires
        is_filling(m),
        m.raw.len() == 0,
        opcode < 16,
        payload.len() <= MAX_FRAME_PAYLOAD,
        mask matches Some(k) ==> k.len() == 4,
    ensures
        fed(m, frame_bytes(opcode, payload, mask), key) == handled(
            WsModel { raw: seq![], ..m },
            opcode,
            payload,
            key,
        ),
{
    let raw = frame_bytes(opcode, payload, mask);
    lemma_frame_header(opcode, payload, mask);
    law_frame_round_trip(opcode, payload, mask);
    lemma_fed_tail(m, raw, 0, key);
    assert(raw.skip(0) =~= raw);
    assert(m.raw =~= raw.take(0));
    assert(WsModel { raw: raw.take(0), ..m } =~= m);
}

/// Feeding the rest of a frame completes it.
#[verifier::rlimit(50)]
#[verifier::spinoff_prover]
proof fn lemma_fed_tail(m: WsModel, raw: Seq<u8>, n: int, key: Seq<u8>)
    requires
        is_filling(m),
        raw.len() >= 2,
        !is_too_large(raw),
        has_header(raw),
        raw.len() == header_len(raw) + announced_len(raw),
        0 <= n < raw.len(),
        n == 0 || n == 2 || n == header_len(raw),
    ensures
        fed(WsModel { raw: raw.take(n), ..m }, raw.skip(n), key) == handled(
            WsModel { raw: seq![], ..m },
            opcode_of(raw),
            payload_of(raw),
            key,
        ),
    decreases raw.len() - n,
{
    let at = WsModel { raw: raw.take(n), ..m };
    let rest = raw.skip(n);
    lemma_prefix_lacks(raw, n);
    let k = missing(raw.take(n)) as int;
    assert(n + k <= raw.len());
    assert(raw.take(n) + rest.take(k) =~= raw.take(n + k));
    if n + k == raw.len() {
        assert(rest.take(k) =~= rest);
        assert(raw.take(n + k) =~= raw);
        assert(missing(raw) == 0);
        assert(absorbed(at, rest, key) == handled(
            WsModel { raw: seq![], ..m },
            opcode_of(raw),
            payload_of(raw),
            key,
        ));
    } else {
        lemma_prefix_lacks(raw, n + k);
        let next = absorbed(at, rest.take(k), key);
        assert(next == WsModel { raw: raw.take(n + k), ..m });
        assert(rest.skip(k) =~= raw.skip(n + k));
        lemma_fed_tail(m, raw, n + k, key);
    }
}

/// A stream that is fed with bytes and read out whenever it has payload: the
/// stream afterwards, and all that was delivered. Where the stream takes no
/// more bytes the rest is left.
pub open spec fn read_all(m: WsModel, wire: Seq<u8>, key: Seq<u8>) -> (WsModel, Seq<u8>)
    decreases wire.len(), m.ready.len(),
{
    let n = missing(m.raw);
    if m.ready.len() > 0 {
        let (after, more) = read_all(WsModel { ready: seq![], ..m }, wire, key);
        (after, m.ready + more)
    } else if wire.len() == 0 || !is_filling(m) || n == 0 {
        (m, seq![])
    } else {
        let k = smaller(n, wire.len()) as int;
        read_all(absorbed(m, wire.take(k), key), wire.skip(k), key)
    }
}

/// How a stream of bytes is split on arrival does not matter, wherever it is
/// split.
pub proof fn law_splits_do_not_matter(m: WsModel, a: Seq<u8>, b: Seq<u8>, key: Seq<u8>)
    ensures
        ({
            let first = read_all(m, a, key);
            let second = read_all(first.0, b, key);
            read_all(m, a + b, key) == (second.0, first.1 + second.1)
        }),
    decreases a.len(), m.ready.len(),
{
    let n = missing(m.raw);
    let first = read_all(m, a, key);
    let second = read_all(first.0, b, key);
    if m.ready.len() > 0 {
        law_splits_do_not_matter(WsModel { ready: seq![], ..m }, a, b, key);
        let part = read_all(WsModel { ready: seq![], ..m }, a, key);
        assert((m.ready + part.1) + second.1 =~= m.ready + (part.1 + second.1));
    } else if a.len() == 0 {
        assert(a + b =~= b);
        assert(seq![] + second.1 =~= second.1);
    } else if !is_filling(m) || n == 0 {
        assert(seq![] + second.1 =~= second.1);
    } else if a.len() >= n {
        assert((a + b).take(n as int) =~= a.take(n as int));
        assert((a + b).skip(n as int) =~= a.skip(n as int) + b);
        law_splits_do_not_matter(absorbed(m, a.take(n as int), key), a.skip(n as int), b, key);
    } else {
        lemma_split_inside(m, a, b, key);
        assert(seq![] + second.1 =~= second.1);
    }
}

/// A split inside the bytes that are missing.
proof fn lemma_split_inside(m: WsModel, a: Seq<u8>, b: Seq<u8>, key: Seq<u8>)
    requires
        is_filling(m),
        0 < a.len() < missing(m.raw),
    ensures
        read_all(m, a, key) == (absorbed(m, a, key), Seq::<u8>::empty()),
        read_all(m, a + b, key) == read_all(absorbed(m, a, key), b, key),
{
    let n = missing(m.raw);
    lemma_still_missing(m.raw, a);
    let at = absorbed(m, a, key);
    assert(at == WsModel { raw: m.raw + a, ..m });
    assert(is_filling(at));
    assert(a.take(a.len() as int) =~= a);
    assert(a.skip(a.len() as int) =~= seq![]);
    assert(read_all(at, seq![], key) == (at, Seq::<u8>::empty()));
    assert(read_all(m, a, key) == read_all(at, seq![], key));
    if b.len() == 0 {
        assert(a + b =~= a);
        assert(b =~= seq![]);
    } else {
        let k = smaller((n - a.len()) as nat, b.len()) as int;
        assert(smaller(n, (a + b).len()) == a.len() + k);
        assert((a + b).take(a.len() + k) =~= a + b.take(k));
        assert((a + b).skip(a.len() + k) =~= b.skip(k));
        assert((m.raw + a) + b.take(k) =~= m.raw + (a + b.take(k)));
        assert(absorbed(at, b.take(k), key) == absorbed(m, a + b.take(k), key));
        assert(read_all(m, a + b, key) == read_all(
            absorbed(m, a + b.take(k), key),
            b.skip(k),
            key,
        ));
    }
}

/// Data frames on the wire, one behind another, each with its mask or none.
pub open spec fn data_frames(frames: Seq<(Seq<u8>, Option<Seq<u8>>)>) -> Seq<u8>
    decreases frames.len(),
{
    if frames.len() == 0 {
        seq![]
    } else {
        frame_bytes(OPCODE_BINARY, frames[0].0, frames[0].1) + data_frames(frames.drop_first())
    }
}

/// The payloads of data frames, one behind another.
pub open spec fn data_payloads(frames: Seq<(Seq<u8>, Option<Seq<u8>>)>) -> Seq<u8>
    decreases frames.len(),
{
    if frames.len() == 0 {
        seq![]
    } else {
        frames[0].0 + data_payloads(frames.drop_first())
    }
}

/// The frames can be written.
pub open spec fn are_frames(frames: Seq<(Seq<u8>, Option<Seq<u8>>)>) -> bool {
    forall|i: int|
        0 <= i < frames.len() ==> (#[trigger] frames[i]).0.len() <= MAX_FRAME_PAYLOAD
            && (frames[i].1 matches Some(k) ==> k.len() == 4)
}

/// What one side writes in any number of data frames is what the other side
/// delivers, byte for byte and in order, and nothing of it stays behind.
pub proof fn law_stream_round_trip(
    m: WsModel,
    frames: Seq<(Seq<u8>, Option<Seq<u8>>)>,
    key: Seq<u8>,
)
    requires
        is_filling(m),
        m.raw.len() == 0,
        are_frames(frames),
    ensures
        read_all(m, data_frames(frames), key) == (m, data_payloads(frames)),
    decreases frames.len(),
{
    if frames.len() > 0 {
        let (payload, mask) = frames[0];
        let rest = frames.drop_first();
        let frame = frame_bytes(OPCODE_BINARY, payload, mask);
        assert forall|i: int| 0 <= i < rest.len() implies (#[trigger] rest[i]).0.len()
            <= MAX_FRAME_PAYLOAD && (rest[i].1 matches Some(k) ==> k.len() == 4) by {
            assert(rest[i] == frames[i + 1]);
        }
        law_stream_round_trip(m, rest, key);
        law_splits_do_not_matter(m, frame, data_frames(rest), key);
        lemma_frame_header(OPCODE_BINARY, payload, mask);
        law_frame_round_trip(OPCODE_BINARY, payload, mask);
        lemma_read_tail(m, frame, 0, key);
        assert(frame.skip(0) =~= frame);
        assert(m.raw =~= frame.take(0));
        assert(m.ready =~= seq![]);
        let got = WsModel { raw: seq![], ready: payload, ..m };
        assert(WsModel { raw: frame.take(0), ..m } =~= m);
        assert(WsModel { ready: seq![], ..got } =~= m);
        assert(read_all(m, seq![], key) == (m, Seq::<u8>::empty()));
        assert(payload + seq![] =~= payload);
        assert(read_all(m, frame, key) == (m, payload));
    }
}

/// Feeding the rest of a data frame delivers its payload.
#[verifier::rlimit(50)]
#[verifier::spinoff_prover]
proof fn lemma_read_tail(m: WsModel, raw: Seq<u8>, n: int, key: Seq<u8>)
    requires
        is_filling(m),
        raw.len() >= 2,
        !is_too_large(raw),
        has_header(raw),
        opcode_of(raw) == OPCODE_BINARY,
        raw.len() == header_len(raw) + announced_len(raw),
        0 <= n < raw.len(),
        n == 0 || n == 2 || n == header_len(raw),
    ensures
        read_all(WsModel { raw: raw.take(n), ..m }, raw.skip(n), key) == read_all(
            WsModel { raw: seq![], ready: payload_of(raw), ..m },
            seq![],
            key,
        ),
    decreases raw.len() - n,
{
    let at = WsModel { raw: raw.take(n), ..m };
    let rest = raw.skip(n);
    lemma_prefix_lacks(raw, n);
    let k = missing(raw.take(n)) as int;
    assert(raw.take(n) + rest.take(k) =~= raw.take(n + k));
    assert(rest.skip(k) =~= raw.skip(n + k));
    let next = absorbed(at, rest.take(k), key);
    if n + k == raw.len() {
        assert(raw.take(n + k) =~= raw);
        assert(rest.skip(k) =~= seq![]);
        assert(missing(raw) == 0);
        assert(next == WsModel { raw: seq![], ready: payload_of(raw), ..m });
    } else {
        lemma_prefix_lacks(raw, n + k);
        assert(next == WsModel { raw: raw.take(n + k), ..m });
        lemma_read_tail(m, raw, n + k, key);
    }
}

// ---------------------------------------------------------------------------
// Laws of a whole reading
// ---------------------------------------------------------------------------

/// What chance, the reader and the transport bring to each step of a reading:
/// the mask of an answer, the room of the reader, and how many bytes the
/// transport has at hand. Of room and bytes there is always one at least.
pub struct Script {
    pub key: spec_fn(int) -> Seq<u8>,
    pub room: spec_fn(int) -> nat,
    pub at_hand: spec_fn(int) -> nat,
}

/// Masks have four bytes.
pub open spec fn has_masks(s: Script) -> bool {
    forall|t: int| (#[trigger] (s.key)(t)).len() == 4
}

/// The number, or one where it is zero.
pub open spec fn some_of(n: nat) -> nat {
    if n == 0 {
        1
    } else {
        n
    }
}

/// A whole reading: what was delivered, what was sent, and how it ended.
#[verifier::ext_equal]
pub struct Reading {
    pub got: Seq<u8>,
    pub sent: Seq<u8>,
    pub ended: WsModel,
    /// The stream ended in an error.
    pub failed: bool,
}

/// What is read from a stream, step by step, until it ends, where the
/// transport has the bytes of `wire`, then its end, and takes whatever is
/// sent.
#[verifier::opaque]
pub open spec fn reading(m: WsModel, wire: Seq<u8>, s: Script, t: int) -> Reading
    decreases m.leftover.len() + wire.len(), m.ready.len(), (if m.ctrl_flush {
        1int
    } else {
        0int
    }),
{
    let n = missing(m.raw);
    if m.ready.len() > 0 {
        let k = smaller(some_of((s.room)(t)), m.ready.len()) as int;
        let more = reading(WsModel { ready: m.ready.skip(k), ..m }, wire, s, t + 1);
        Reading { got: m.ready.take(k) + more.got, ..more }
    } else if m.eof {
        Reading { got: seq![], sent: seq![], ended: m, failed: false }
    } else if m.ctrl_flush {
        let more = reading(
            WsModel { pending: seq![], ctrl_flush: false, ..m },
            wire,
            s,
            t + 1,
        );
        Reading { sent: m.pending + more.sent, ..more }
    } else if m.closing {
        Reading { got: seq![], sent: seq![], ended: WsModel { eof: true, ..m }, failed: false }
    } else if is_too_large(m.raw) || n == 0 {
        Reading { got: seq![], sent: seq![], ended: m, failed: true }
    } else if m.leftover.len() > 0 {
        let k = smaller(n, m.leftover.len()) as int;
        let rest = WsModel { leftover: m.leftover.skip(k), ..m };
        reading(absorbed(rest, m.leftover.take(k), (s.key)(t)), wire, s, t + 1)
    } else if wire.len() > 0 {
        let k = smaller(n, smaller(wire.len(), some_of((s.at_hand)(t)))) as int;
        reading(absorbed(m, wire.take(k), (s.key)(t)), wire.skip(k), s, t + 1)
    } else if m.raw.len() == 0 {
        Reading { got: seq![], sent: seq![], ended: WsModel { eof: true, ..m }, failed: false }
    } else {
        Reading { got: seq![], sent: seq![], ended: m, failed: true }
    }
}

/// A whole frame of any kind, masked or not, final or not, that is not too
/// large.
pub open spec fn is_frame(f: Seq<u8>) -> bool {
    &&& f.len() >= 2
    &&& has_header(f)
    &&& !is_too_large(f)
    &&& f.len() == header_len(f) + announced_len(f)
}

/// What is written as a frame is a whole frame of its kind.
pub proof fn law_written_frame_is_whole(opcode: u8, payload: Seq<u8>, key: Option<Seq<u8>>)
    requires
        opcode < 16,
        payload.len() <= MAX_FRAME_PAYLOAD,
        key matches Some(k) ==> k.len() == 4,
    ensures
        is_frame(frame_bytes(opcode, payload, key)),
        opcode_of(frame_bytes(opcode, payload, key)) == opcode,
        payload_of(frame_bytes(opcode, payload, key)) == payload,
{
    lemma_frame_header(opcode, payload, key);
    law_frame_round_trip(opcode, payload, key);
}

/// A part of a frame, which may be empty.
pub open spec fn is_part(p: Seq<u8>) -> bool {
    exists|f: Seq<u8>| #[trigger] is_frame(f) && p.len() < f.len() && p == f.take(p.len() as int)
}

/// The frame carries data.
pub open spec fn carries_data(f: Seq<u8>) -> bool {
    opcode_of(f) == OPCODE_BINARY || opcode_of(f) == OPCODE_CONT || opcode_of(f) == OPCODE_TEXT
}

/// Frames, one behind another.
pub open spec fn joined(frames: Seq<Seq<u8>>) -> Seq<u8>
    decreases frames.len(),
{
    if frames.len() == 0 {
        seq![]
    } else {
        frames[0] + joined(frames.drop_first())
    }
}

/// The payloads of the frames that carry data, one behind another.
pub open spec fn payloads(frames: Seq<Seq<u8>>) -> Seq<u8>
    decreases frames.len(),
{
    if frames.len() == 0 {
        seq![]
    } else if carries_data(frames[0]) {
        payload_of(frames[0]) + payloads(frames.drop_first())
    } else {
        payloads(frames.drop_first())
    }
}

/// Each ping among the frames is answered by one masked pong with its
/// payload, in order, and nothing else is sent.
pub open spec fn answers(frames: Seq<Seq<u8>>, sent: Seq<u8>) -> bool
    decreases frames.len(),
{
    if frames.len() == 0 {
        sent.len() == 0
    } else if opcode_of(frames[0]) == OPCODE_PING {
        exists|key: Seq<u8>, rest: Seq<u8>|
            key.len() == 4 && sent == #[trigger] (frame_bytes(
                OPCODE_PONG,
                payload_of(frames[0]),
                Some(key),
            ) + rest) && answers(frames.drop_first(), rest)
    } else {
        answers(frames.drop_first(), sent)
    }
}

/// The frames are whole, and none of them closes the stream.
pub open spec fn are_open_frames(frames: Seq<Seq<u8>>) -> bool {
    forall|i: int|
        0 <= i < frames.len() ==> is_frame(#[trigger] frames[i]) && opcode_of(frames[i])
            != OPCODE_CLOSE
}

/// What has arrived of a frame is of the first of these; where there are
/// none, nothing has.
spec fn begun(m: WsModel, frames: Seq<Seq<u8>>) -> bool {
    if frames.len() > 0 {
        m.raw.len() < frames[0].len() && m.raw == frames[0].take(m.raw.len() as int)
    } else {
        m.raw.len() == 0
    }
}

/// The stream is open, and what is pending is an answer.
spec fn is_open(m: WsModel) -> bool {
    &&& !m.eof
    &&& !m.closing
    &&& !is_too_large(m.raw)
    &&& missing(m.raw) > 0
    &&& !m.ctrl_flush ==> m.pending.len() == 0
}

/// A reading that begins with frames and goes on as another one does.
spec fn reads_out(m: WsModel, frames: Seq<Seq<u8>>, e: Reading, r: Reading) -> bool {
    &&& r.got == m.ready + payloads(frames) + e.got
    &&& exists|x: Seq<u8>| #[trigger]
        answers(frames, x) && r.sent == (if m.ctrl_flush {
            m.pending
        } else {
            seq![]
        }) + x + e.sent
    &&& r.failed == e.failed
    &&& r.ended == e.ended
}

/// The part of a frame that has arrived lacks something, and the bytes that
/// it lacks are its own.
proof fn lemma_part_lacks(f: Seq<u8>, n: int)
    requires
        is_frame(f),
        0 <= n < f.len(),
    ensures
        missing(f.take(n)) > 0,
        n + missing(f.take(n)) <= f.len(),
        !is_too_large(f.take(n)),
        missing(f) == 0,
{
    lemma_prefix_lacks(f, n);
}

/// The stream once bytes of a frame arrived that does not close it.
proof fn lemma_absorbed_part(m: WsModel, f: Seq<u8>, x: Seq<u8>, key: Seq<u8>)
    requires
        is_frame(f),
        m.raw.len() < f.len(),
        m.raw == f.take(m.raw.len() as int),
        0 < x.len() <= missing(m.raw),
        x == f.subrange(m.raw.len() as int, m.raw.len() as int + x.len()),
    ensures
        m.raw.len() + x.len() < f.len() ==> absorbed(m, x, key) == (WsModel {
            raw: f.take((m.raw.len() + x.len()) as int),
            ..m
        }),
        m.raw.len() + x.len() == f.len() ==> absorbed(m, x, key) == handled(
            WsModel { raw: seq![], ..m },
            opcode_of(f),
            payload_of(f),
            key,
        ),
        m.raw.len() + x.len() <= f.len(),
{
    let n = m.raw.len() as int;
    lemma_part_lacks(f, n);
    assert(m.raw + x =~= f.take(n + x.len()));
    if n + x.len() < f.len() {
        lemma_part_lacks(f, n + x.len());
    } else {
        assert(f.take(n + x.len()) =~= f);
    }
}

/// A step in which bytes of a frame arrive.
proof fn lemma_arrival(
    m: WsModel,
    after: WsModel,
    x: Seq<u8>,
    left: Seq<u8>,
    frames: Seq<Seq<u8>>,
    tail: Seq<u8>,
    key: Seq<u8>,
) -> (remaining: Seq<Seq<u8>>)
    requires
        is_open(m),
        m.ready.len() == 0,
        !m.ctrl_flush,
        key.len() == 4,
        are_open_frames(frames),
        frames.len() > 0,
        m.raw + x + left == joined(frames) + tail,
        m.raw.len() < frames[0].len(),
        m.raw == frames[0].take(m.raw.len() as int),
        0 < x.len() <= missing(m.raw),
        after == absorbed(m, x, key),
    ensures
        is_open(after),
        after.leftover == m.leftover,
        after.close_sent == m.close_sent,
        are_open_frames(remaining),
        after.raw + left == joined(remaining) + tail,
        begun(after, remaining),
        after.ready + payloads(remaining) == payloads(frames),
        forall|y: Seq<u8>| #[trigger]
            answers(remaining, y) ==> answers(
                frames,
                (if after.ctrl_flush {
                    after.pending
                } else {
                    seq![]
                }) + y,
            ),
{
    let n = m.raw.len() as int;
    let all = joined(frames) + tail;
    assert(m.raw =~= all.take(n));
    assert(x =~= all.subrange(n, n + x.len()));
    assert(left =~= all.skip(n + x.len()));
    let f = frames[0];
    let rest = frames.drop_first();
    assert(is_frame(f));
    lemma_part_lacks(f, n);
    assert(all =~= f + (joined(rest) + tail));
    assert(x =~= f.subrange(n, n + x.len()));
    lemma_absorbed_part(m, f, x, key);
    if n + x.len() < f.len() {
        lemma_part_lacks(f, n + x.len());
        assert(after.raw =~= all.take(n + x.len()));
        assert(after.raw + left =~= all);
        assert(after.ready + payloads(frames) =~= payloads(frames));
        assert forall|y: Seq<u8>| #[trigger] answers(frames, y) implies answers(
            frames,
            Seq::<u8>::empty() + y,
        ) by {
            assert(Seq::<u8>::empty() + y =~= y);
        }
        frames
    } else {
        assert(opcode_of(f) != OPCODE_CLOSE);
        assert(m.pending =~= seq![]);
        assert(m.ready =~= seq![]);
        assert forall|i: int| 0 <= i < rest.len() implies is_frame(#[trigger] rest[i])
            && opcode_of(rest[i]) != OPCODE_CLOSE by {
            assert(rest[i] == frames[i + 1]);
        }
        assert(left =~= joined(rest) + tail);
        assert(after.raw + left =~= joined(rest) + tail);
        if rest.len() > 0 {
            assert(is_frame(rest[0]));
            assert(after.raw =~= rest[0].take(0));
        }
        assert(after.ready + payloads(rest) =~= payloads(frames));
        if opcode_of(f) == OPCODE_PING {
            let pong = frame_bytes(OPCODE_PONG, payload_of(f), Some(key));
            assert(after.pending =~= pong);
            assert forall|y: Seq<u8>| #[trigger] answers(rest, y) implies answers(
                frames,
                after.pending + y,
            ) by {
                assert(after.pending + y == pong + y);
            }
        } else {
            assert forall|y: Seq<u8>| #[trigger] answers(rest, y) implies answers(
                frames,
                Seq::<u8>::empty() + y,
            ) by {
                assert(Seq::<u8>::empty() + y =~= y);
            }
        }
        rest
    }
}

/// A reading goes on with what is left once the reader took a part.
proof fn lemma_out_after_take(
    m: WsModel,
    k: int,
    frames: Seq<Seq<u8>>,
    e: Reading,
    more: Reading,
    r: Reading,
)
    requires
        0 <= k <= m.ready.len(),
        reads_out(WsModel { ready: m.ready.skip(k), ..m }, frames, e, more),
        r == (Reading { got: m.ready.take(k) + more.got, ..more }),
    ensures
        reads_out(m, frames, e, r),
{
    assert(m.ready.take(k) + (m.ready.skip(k) + payloads(frames) + e.got) =~= m.ready + payloads(
        frames,
    ) + e.got);
    let x = choose|x: Seq<u8>| #[trigger]
        answers(frames, x) && more.sent == (if m.ctrl_flush {
            m.pending
        } else {
            seq![]
        }) + x + e.sent;
    assert(answers(frames, x));
}

/// A reading goes on once an answer was sent.
proof fn lemma_out_after_flush(
    m: WsModel,
    frames: Seq<Seq<u8>>,
    e: Reading,
    more: Reading,
    r: Reading,
)
    requires
        m.ctrl_flush,
        reads_out(WsModel { pending: seq![], ctrl_flush: false, ..m }, frames, e, more),
        r == (Reading { sent: m.pending + more.sent, ..more }),
    ensures
        reads_out(m, frames, e, r),
{
    let x = choose|x: Seq<u8>| #[trigger]
        answers(frames, x) && more.sent == Seq::<u8>::empty() + x + e.sent;
    assert(m.pending + (Seq::<u8>::empty() + x + e.sent) =~= m.pending + x + e.sent);
    assert(answers(frames, x));
}

/// A reading goes on once bytes arrived.
proof fn lemma_out_after_arrival(
    m: WsModel,
    after: WsModel,
    frames: Seq<Seq<u8>>,
    remaining: Seq<Seq<u8>>,
    e: Reading,
    r: Reading,
)
    requires
        m.ready.len() == 0,
        !m.ctrl_flush,
        reads_out(after, remaining, e, r),
        after.ready + payloads(remaining) == payloads(frames),
        forall|y: Seq<u8>| #[trigger]
            answers(remaining, y) ==> answers(
                frames,
                (if after.ctrl_flush {
                    after.pending
                } else {
                    seq![]
                }) + y,
            ),
    ensures
        reads_out(m, frames, e, r),
{
    let sent = if after.ctrl_flush {
        after.pending
    } else {
        seq![]
    };
    let y = choose|y: Seq<u8>| #[trigger]
        answers(remaining, y) && r.sent == sent + y + e.sent;
    assert(answers(frames, sent + y));
    assert(r.sent =~= Seq::<u8>::empty() + (sent + y) + e.sent);
    assert(r.got =~= m.ready + payloads(frames) + e.got);
}

/// One step of a reading of an open stream.
proof fn lemma_reading_step(m: WsModel, wire: Seq<u8>, s: Script, t: int)
    requires
        is_open(m),
    ensures
        ({
            let r = reading(m, wire, s, t);
            let n = missing(m.raw);
            if m.ready.len() > 0 {
                let k = smaller(some_of((s.room)(t)), m.ready.len()) as int;
                let more = reading(WsModel { ready: m.ready.skip(k), ..m }, wire, s, t + 1);
                r == (Reading { got: m.ready.take(k) + more.got, ..more })
            } else if m.ctrl_flush {
                let more = reading(
                    WsModel { pending: seq![], ctrl_flush: false, ..m },
                    wire,
                    s,
                    t + 1,
                );
                r == (Reading { sent: m.pending + more.sent, ..more })
            } else if m.leftover.len() > 0 {
                let k = smaller(n, m.leftover.len()) as int;
                let rest = WsModel { leftover: m.leftover.skip(k), ..m };
                r == reading(absorbed(rest, m.leftover.take(k), (s.key)(t)), wire, s, t + 1)
            } else if wire.len() > 0 {
                let k = smaller(n, smaller(wire.len(), some_of((s.at_hand)(t)))) as int;
                r == reading(absorbed(m, wire.take(k), (s.key)(t)), wire.skip(k), s, t + 1)
            } else {
                &&& r.got.len() == 0
                &&& r.sent.len() == 0
                &&& r.failed == (m.raw.len() > 0)
                &&& m.raw.len() == 0 ==> r.ended.eof
            }
        }),
{
    reveal(reading);
}

/// Once the frames are read, the reading goes on with what stands behind them:
/// the stream, the bytes and the step that it goes on with.
#[verifier::rlimit(60)]
#[verifier::spinoff_prover]
proof fn lemma_reading(
    m: WsModel,
    wire: Seq<u8>,
    s: Script,
    t: int,
    frames: Seq<Seq<u8>>,
    tail: Seq<u8>,
) -> (last: (WsModel, Seq<u8>, int))
    requires
        has_masks(s),
        is_open(m),
        are_open_frames(frames),
        m.raw + m.leftover + wire == joined(frames) + tail,
        begun(m, frames),
    ensures
        is_open(last.0),
        last.0.raw.len() == 0,
        last.0.ready.len() == 0,
        !last.0.ctrl_flush,
        last.0.close_sent == m.close_sent,
        last.0.leftover + last.1 == tail,
        reads_out(m, frames, reading(last.0, last.1, s, last.2), reading(m, wire, s, t)),
    decreases m.leftover.len() + wire.len(), m.ready.len(), (if m.ctrl_flush {
        1int
    } else {
        0int
    }),
{
    let r = reading(m, wire, s, t);
    let n = missing(m.raw);
    lemma_reading_step(m, wire, s, t);
    if m.ready.len() > 0 {
        let k = smaller(some_of((s.room)(t)), m.ready.len()) as int;
        let next = WsModel { ready: m.ready.skip(k), ..m };
        let last = lemma_reading(next, wire, s, t + 1, frames, tail);
        let e = reading(last.0, last.1, s, last.2);
        lemma_out_after_take(m, k, frames, e, reading(next, wire, s, t + 1), r);
        last
    } else if m.ctrl_flush {
        let next = WsModel { pending: seq![], ctrl_flush: false, ..m };
        let last = lemma_reading(next, wire, s, t + 1, frames, tail);
        let e = reading(last.0, last.1, s, last.2);
        lemma_out_after_flush(m, frames, e, reading(next, wire, s, t + 1), r);
        last
    } else if frames.len() == 0 {
        lemma_out_at_once(m, frames, r);
        assert(m.leftover + wire =~= m.raw + m.leftover + wire);
        assert(joined(frames) + tail =~= tail);
        (m, wire, t)
    } else if m.leftover.len() > 0 {
        let k = smaller(n, m.leftover.len()) as int;
        let x = m.leftover.take(k);
        let at = WsModel { leftover: m.leftover.skip(k), ..m };
        let left = at.leftover + wire;
        assert(at.raw + x + left =~= m.raw + m.leftover + wire);
        let key = (s.key)(t);
        assert(key.len() == 4);
        let after = absorbed(at, x, key);
        let remaining = lemma_arrival(at, after, x, left, frames, tail, key);
        assert(after.raw + after.leftover + wire =~= after.raw + left);
        let last = lemma_reading(after, wire, s, t + 1, remaining, tail);
        let e = reading(last.0, last.1, s, last.2);
        lemma_out_after_arrival(m, after, frames, remaining, e, r);
        last
    } else {
        lemma_lacks_bytes(m, wire, frames, tail);
        let k = smaller(n, smaller(wire.len(), some_of((s.at_hand)(t)))) as int;
        let x = wire.take(k);
        let left = wire.skip(k);
        assert(m.raw + x + left =~= m.raw + m.leftover + wire);
        let key = (s.key)(t);
        assert(key.len() == 4);
        let after = absorbed(m, x, key);
        let remaining = lemma_arrival(m, after, x, left, frames, tail, key);
        assert(after.raw + after.leftover + left =~= after.raw + left);
        let last = lemma_reading(after, left, s, t + 1, remaining, tail);
        let e = reading(last.0, last.1, s, last.2);
        lemma_out_after_arrival(m, after, frames, remaining, e, r);
        last
    }
}

/// Where a frame has not arrived, bytes are left.
proof fn lemma_lacks_bytes(m: WsModel, wire: Seq<u8>, frames: Seq<Seq<u8>>, tail: Seq<u8>)
    requires
        frames.len() > 0,
        begun(m, frames),
        m.leftover.len() == 0,
        m.raw + m.leftover + wire == joined(frames) + tail,
    ensures
        wire.len() > 0,
{
    assert((joined(frames) + tail).len() >= frames[0].len());
    assert((m.raw + m.leftover + wire).len() == m.raw.len() + wire.len());
}

/// A reading that begins with no frame goes on as it is.
proof fn lemma_out_at_once(m: WsModel, frames: Seq<Seq<u8>>, r: Reading)
    requires
        m.ready.len() == 0,
        !m.ctrl_flush,
        frames.len() == 0,
    ensures
        reads_out(m, frames, r, r),
{
    assert(r.got =~= m.ready + payloads(frames) + r.got);
    assert(answers(frames, Seq::<u8>::empty()));
    assert(r.sent =~= Seq::<u8>::empty() + Seq::<u8>::empty() + r.sent);
}

/// One of them begins with the other.
spec fn begin_alike(a: Seq<u8>, b: Seq<u8>) -> bool {
    forall|i: int| 0 <= i < a.len() && i < b.len() ==> #[trigger] a[i] == b[i]
}

/// A step in which bytes of a certain frame arrive.
proof fn lemma_piece(m: WsModel, x: Seq<u8>, left: Seq<u8>, f: Seq<u8>, all: Seq<u8>, key: Seq<u8>)
    requires
        is_open(m),
        is_frame(f),
        m.raw.len() < f.len(),
        all == m.raw + x + left,
        begin_alike(all, f),
        0 < x.len() <= missing(m.raw),
    ensures
        m.raw.len() + x.len() <= f.len(),
        m.raw.len() + x.len() < f.len() ==> {
            let after = absorbed(m, x, key);
            &&& after == (WsModel { raw: m.raw + x, ..m })
            &&& is_open(after)
            &&& after.raw + left == all
        },
        m.raw.len() + x.len() == f.len() ==> absorbed(m, x, key) == handled(
            WsModel { raw: seq![], ..m },
            opcode_of(f),
            payload_of(f),
            key,
        ),
{
    let l = m.raw.len() as int;
    let k = x.len() as int;
    assert forall|i: int| 0 <= i < l implies #[trigger] m.raw[i] == f[i] by {
        assert(all[i] == f[i]);
    }
    assert(m.raw =~= f.take(l));
    lemma_part_lacks(f, l);
    assert forall|i: int| 0 <= i < k implies #[trigger] x[i] == f[l + i] by {
        assert(all[l + i] == f[l + i]);
    }
    assert(x =~= f.subrange(l, l + k));
    lemma_absorbed_part(m, f, x, key);
    if l + k < f.len() {
        lemma_part_lacks(f, l + k);
        assert(m.raw + x =~= f.take(l + k));
    }
}

/// A reading that ends inside a frame, or before one.
#[verifier::spinoff_prover]
proof fn lemma_reading_part(m: WsModel, wire: Seq<u8>, s: Script, t: int, f: Seq<u8>, all: Seq<u8>)
    requires
        is_open(m),
        m.ready.len() == 0,
        !m.ctrl_flush,
        is_frame(f),
        all.len() < f.len(),
        begin_alike(all, f),
        m.raw + m.leftover + wire == all,
    ensures
        ({
            let r = reading(m, wire, s, t);
            &&& r.got.len() == 0
            &&& r.sent.len() == 0
            &&& r.failed == (all.len() > 0)
            &&& all.len() == 0 ==> r.ended.eof
        }),
    decreases m.leftover.len() + wire.len(),
{
    lemma_reading_step(m, wire, s, t);
    assert(all.len() == m.raw.len() + m.leftover.len() + wire.len());
    let key = (s.key)(t);
    if m.leftover.len() > 0 {
        let k = smaller(missing(m.raw), m.leftover.len()) as int;
        let x = m.leftover.take(k);
        let at = WsModel { leftover: m.leftover.skip(k), ..m };
        assert(all =~= at.raw + x + (at.leftover + wire));
        lemma_piece(at, x, at.leftover + wire, f, all, key);
        let after = absorbed(at, x, key);
        assert(after.raw + after.leftover + wire =~= after.raw + (at.leftover + wire));
        lemma_reading_part(after, wire, s, t + 1, f, all);
    } else if wire.len() > 0 {
        let k = smaller(missing(m.raw), smaller(wire.len(), some_of((s.at_hand)(t)))) as int;
        let x = wire.take(k);
        assert(all =~= m.raw + x + wire.skip(k));
        lemma_piece(m, x, wire.skip(k), f, all, key);
        let after = absorbed(m, x, key);
        assert(after.raw + after.leftover + wire.skip(k) =~= after.raw + wire.skip(k));
        lemma_reading_part(after, wire.skip(k), s, t + 1, f, all);
    }
}

/// The answer to a close frame: a masked close frame, unless one was sent.
pub open spec fn answers_close(close_sent: bool, sent: Seq<u8>) -> bool {
    if close_sent {
        sent.len() == 0
    } else {
        exists|key: Seq<u8>|
            key.len() == 4 && sent == #[trigger] frame_bytes(OPCODE_CLOSE, seq![], Some(key))
    }
}

/// A reading once a close frame has arrived.
proof fn lemma_reading_closed(
    m: WsModel,
    wire: Seq<u8>,
    s: Script,
    t: int,
    close_sent: bool,
    key: Seq<u8>,
)
    requires
        key.len() == 4,
        !m.eof,
        m.closing,
        m.ctrl_flush,
        m.ready.len() == 0,
        m.pending == (if close_sent {
            seq![]
        } else {
            frame_bytes(OPCODE_CLOSE, seq![], Some(key))
        }),
    ensures
        ({
            let r = reading(m, wire, s, t);
            &&& r.got.len() == 0
            &&& answers_close(close_sent, r.sent)
            &&& !r.failed
            &&& r.ended.eof
        }),
{
    reveal(reading);
    let next = WsModel { pending: seq![], ctrl_flush: false, ..m };
    let more = reading(next, wire, s, t + 1);
    assert(more.sent.len() == 0 && more.got.len() == 0 && !more.failed && more.ended.eof);
    assert(m.pending + more.sent =~= m.pending);
    assert(reading(m, wire, s, t).sent == m.pending);
}

/// A reading in which the last bytes of a close frame arrive.
proof fn lemma_close_arrived(
    m: WsModel,
    after: WsModel,
    left: Seq<u8>,
    s: Script,
    t: int,
    f: Seq<u8>,
    key: Seq<u8>,
)
    requires
        key.len() == 4,
        is_open(m),
        m.ready.len() == 0,
        !m.ctrl_flush,
        opcode_of(f) == OPCODE_CLOSE,
        after == handled(WsModel { raw: seq![], ..m }, opcode_of(f), payload_of(f), key),
    ensures
        ({
            let r = reading(after, left, s, t);
            &&& r.got.len() == 0
            &&& answers_close(m.close_sent, r.sent)
            &&& !r.failed
            &&& r.ended.eof
        }),
{
    assert(m.pending =~= seq![]);
    assert(after.pending =~= (if m.close_sent {
        seq![]
    } else {
        frame_bytes(OPCODE_CLOSE, seq![], Some(key))
    }));
    lemma_reading_closed(after, left, s, t, m.close_sent, key);
}

/// A reading that comes to a close frame.
#[verifier::spinoff_prover]
proof fn lemma_reading_close(
    m: WsModel,
    wire: Seq<u8>,
    s: Script,
    t: int,
    f: Seq<u8>,
    all: Seq<u8>,
)
    requires
        has_masks(s),
        is_open(m),
        m.ready.len() == 0,
        !m.ctrl_flush,
        is_frame(f),
        opcode_of(f) == OPCODE_CLOSE,
        m.raw.len() < f.len() <= all.len(),
        begin_alike(all, f),
        m.raw + m.leftover + wire == all,
    ensures
        ({
            let r = reading(m, wire, s, t);
            &&& r.got.len() == 0
            &&& answers_close(m.close_sent, r.sent)
            &&& !r.failed
            &&& r.ended.eof
        }),
    decreases m.leftover.len() + wire.len(),
{
    lemma_reading_step(m, wire, s, t);
    assert(all.len() == m.raw.len() + m.leftover.len() + wire.len());
    let key = (s.key)(t);
    assert(key.len() == 4);
    if m.leftover.len() > 0 {
        let k = smaller(missing(m.raw), m.leftover.len()) as int;
        let x = m.leftover.take(k);
        let at = WsModel { leftover: m.leftover.skip(k), ..m };
        assert(all =~= at.raw + x + (at.leftover + wire));
        lemma_piece(at, x, at.leftover + wire, f, all, key);
        let after = absorbed(at, x, key);
        if m.raw.len() + k < f.len() {
            assert(after.raw + after.leftover + wire =~= after.raw + (at.leftover + wire));
            lemma_reading_close(after, wire, s, t + 1, f, all);
        } else {
            lemma_close_arrived(at, after, wire, s, t + 1, f, key);
        }
    } else {
        let k = smaller(missing(m.raw), smaller(wire.len(), some_of((s.at_hand)(t)))) as int;
        let x = wire.take(k);
        assert(all =~= m.raw + x + wire.skip(k));
        lemma_piece(m, x, wire.skip(k), f, all, key);
        let after = absorbed(m, x, key);
        if m.raw.len() + k < f.len() {
            assert(after.raw + after.leftover + wire.skip(k) =~= after.raw + wire.skip(k));
            lemma_reading_close(after, wire.skip(k), s, t + 1, f, all);
        } else {
            lemma_close_arrived(m, after, wire.skip(k), s, t + 1, f, key);
        }
    }
}

/// What is read from a stream of frames is the payloads of the frames that
/// carry data, joined in order: text, binary and continuation, final or not,
/// with control frames between them that add no byte. Every ping is answered
/// by one pong with its payload. That holds however the bytes arrive, with
/// the handshake or behind it, and whatever room the reader has. Behind the
/// last frame the stream ends cleanly, inside a frame in an error.
pub proof fn law_frames_are_delivered(
    m: WsModel,
    wire: Seq<u8>,
    s: Script,
    frames: Seq<Seq<u8>>,
    tail: Seq<u8>,
)
    requires
        has_masks(s),
        m.raw.len() == 0,
        m.ready.len() == 0,
        m.pending.len() == 0,
        !m.eof && !m.closing && !m.ctrl_flush,
        are_open_frames(frames),
        is_part(tail),
        m.leftover + wire == joined(frames) + tail,
    ensures
        reading(m, wire, s, 0).got == payloads(frames),
        answers(frames, reading(m, wire, s, 0).sent),
        reading(m, wire, s, 0).failed == (tail.len() > 0),
        tail.len() == 0 ==> reading(m, wire, s, 0).ended.eof,
{
    assert(m.raw + m.leftover + wire =~= m.leftover + wire);
    if frames.len() > 0 {
        assert(is_frame(frames[0]));
        assert(m.raw =~= frames[0].take(0));
    }
    let last = lemma_reading(m, wire, s, 0, frames, tail);
    let f = choose|f: Seq<u8>| #[trigger]
        is_frame(f) && tail.len() < f.len() && tail == f.take(tail.len() as int);
    assert(last.0.raw + last.0.leftover + last.1 =~= tail);
    lemma_reading_part(last.0, last.1, s, last.2, f, tail);
    let r = reading(m, wire, s, 0);
    let e = reading(last.0, last.1, s, last.2);
    let x = choose|x: Seq<u8>| #[trigger]
        answers(frames, x) && r.sent == Seq::<u8>::empty() + x + e.sent;
    assert(r.sent =~= x);
    assert(r.got =~= payloads(frames));
}

/// A close frame ends the stream cleanly: what was read is the payloads of the
/// frames before it that carry data, and nothing of what stands behind it,
/// whatever that is. It is answered by one masked close frame, behind the
/// answers to the pings before it, unless this side has sent one already; and
/// nothing else is sent. That holds however the bytes arrive and whatever room
/// the reader has.
pub proof fn law_close_ends_the_stream(
    m: WsModel,
    wire: Seq<u8>,
    s: Script,
    frames: Seq<Seq<u8>>,
    close: Seq<u8>,
    behind: Seq<u8>,
)
    requires
        has_masks(s),
        m.raw.len() == 0,
        m.ready.len() == 0,
        m.pending.len() == 0,
        !m.eof && !m.closing && !m.ctrl_flush,
        are_open_frames(frames),
        is_frame(close),
        opcode_of(close) == OPCODE_CLOSE,
        m.leftover + wire == joined(frames) + close + behind,
    ensures
        reading(m, wire, s, 0).got == payloads(frames),
        exists|pongs: Seq<u8>, last: Seq<u8>|
            reading(m, wire, s, 0).sent == #[trigger] (pongs + last) && answers(frames, pongs)
                && answers_close(m.close_sent, last),
        !reading(m, wire, s, 0).failed,
        reading(m, wire, s, 0).ended.eof,
{
    assert(m.raw + m.leftover + wire =~= m.leftover + wire);
    assert(joined(frames) + close + behind =~= joined(frames) + (close + behind));
    if frames.len() > 0 {
        assert(is_frame(frames[0]));
        assert(m.raw =~= frames[0].take(0));
    }
    let last = lemma_reading(m, wire, s, 0, frames, close + behind);
    assert(last.0.raw + last.0.leftover + last.1 =~= close + behind);
    lemma_reading_close(last.0, last.1, s, last.2, close, close + behind);
    let r = reading(m, wire, s, 0);
    let e = reading(last.0, last.1, s, last.2);
    let x = choose|x: Seq<u8>| #[trigger]
        answers(frames, x) && r.sent == Seq::<u8>::empty() + x + e.sent;
    assert(r.sent =~= x + e.sent);
    assert(r.got =~= payloads(frames));
}

// ---------------------------------------------------------------------------
// Handshake
// ---------------------------------------------------------------------------

/// The suffix that makes an accept key out of a handshake key.
pub const WS_GUID: &'static str = "258EAFA5-E914-47DA-95CA-C5AB0DC85B11";

/// The accept key that answers a handshake key.
pub open spec fn accept_key_of(key: Seq<char>) -> Seq<char> {
    crypto::base64_text(crypto::sha1_of(encode_utf8(key) + WS_GUID.spec_bytes()))
}

/// The accept key that answers a handshake key.
pub fn compute_accept_key(key: &str) -> (r: String)
    ensures
        r@ == accept_key_of(key@),
{
    let mut msg: Vec<u8> = Vec::new();
    text::append_bytes(&mut msg, key.as_bytes());
    text::append_bytes(&mut msg, WS_GUID.as_bytes());
    assert(msg@ =~= encode_utf8(key@) + WS_GUID.spec_bytes());
    let digest = crypto::sha1(msg.as_slice());
    crypto::base64_encode(digest.as_slice())
}

/// A request path: it begins with a slash, and is one if none is given.
pub open spec fn normalized_path(path: Option<Seq<char>>) -> Seq<char> {
    match path {
        Some(p) => if p.len() == 0 {
            seq!['/']
        } else if p[0] == '/' {
            p
        } else {
            seq!['/'] + p
        },
        None => seq!['/'],
    }
}

/// A request path: it begins with a slash, and is one if none is given.
pub fn normalize_path(path: Option<&str>) -> (r: String)
    ensures
        r@ == normalized_path(
            match path {
                Some(p) => Some(p@),
                None => None,
            },
        ),
{
    let mut out: Vec<char> = Vec::new();
    match path {
        Some(p) => {
            let c = text::chars_of(p);
            if c.len() == 0 || c[0] != '/' {
                out.push('/');
            }
            text::append_chars(&mut out, c.as_slice());
        },
        None => {
            out.push('/');
        },
    }
    assert(out@ =~= normalized_path(
        match path {
            Some(p) => Some(p@),
            None => None,
        },
    ));
    text::string_of(out.as_slice())
}

/// A header that the handshake sets itself.
pub open spec fn is_reserved(name: Seq<char>) -> bool {
    ||| text::same_ignoring_case(name, "host"@)
    ||| text::same_ignoring_case(name, "upgrade"@)
    ||| text::same_ignoring_case(name, "connection"@)
    ||| text::same_ignoring_case(name, "sec-websocket-key"@)
    ||| text::same_ignoring_case(name, "sec-websocket-version"@)
}

/// Whether a header is one that the handshake sets itself.
pub fn is_reserved_header(name: &str) -> (r: bool)
    ensures
        r == is_reserved(name@),
{
    let n = text::chars_of(name);
    let n = n.as_slice();
    text::eq_ignore_case_str(n, "host") || text::eq_ignore_case_str(n, "upgrade")
        || text::eq_ignore_case_str(n, "connection") || text::eq_ignore_case_str(
        n,
        "sec-websocket-key",
    ) || text::eq_ignore_case_str(n, "sec-websocket-version")
}

/// The text holds a line end.
pub open spec fn breaks_line(s: Seq<char>) -> bool {
    s.contains('\r') || s.contains('\n')
}

fn has_line_break(s: &[char]) -> (r: bool)
    ensures
        r == breaks_line(s@),
{
    let a: usize = text::find_char(s, '\r');
    let b: usize = text::find_char(s, '\n');
    proof {
        if a < s@.len() {
            assert(s@[a as int] == '\r');
        }
        if b < s@.len() {
            assert(s@[b as int] == '\n');
        }
    }
    a < s.len() || b < s.len()
}

/// The names and values of a list of headers.
pub open spec fn header_views(h: Seq<(String, String)>) -> Seq<(Seq<char>, Seq<char>)> {
    h.map_values(|p: (String, String)| (p.0@, p.1@))
}

/// The lines of the further headers: those that the handshake sets itself,
/// and those with a line end in them, are left out.
pub open spec fn header_lines(h: Seq<(Seq<char>, Seq<char>)>) -> Seq<char>
    decreases h.len(),
{
    if h.len() == 0 {
        seq![]
    } else {
        let (name, value) = h.last();
        let before = header_lines(h.drop_last());
        if is_reserved(name) || breaks_line(name) || breaks_line(value) {
            before
        } else {
            before + name + ": "@ + value + "\r\n"@
        }
    }
}

/// The text of an upgrade request.
pub open spec fn request_text(
    host: Seq<char>,
    path: Seq<char>,
    headers: Seq<(Seq<char>, Seq<char>)>,
    key: Seq<char>,
) -> Seq<char> {
    "GET "@ + path + " HTTP/1.1\r\nHost: "@ + host
        + "\r\nUpgrade: websocket\r\nConnection: Upgrade\r\nSec-WebSocket-Key: "@ + key
        + "\r\nSec-WebSocket-Version: 13\r\n"@ + header_lines(headers) + "\r\n"@
}

/// Builds an upgrade request with the given key.
pub fn build_handshake_with(host: &str, path: &str, headers: &Vec<(String, String)>, key: &str) -> (r:
    Vec<u8>)
    ensures
        r@ == encode_utf8(request_text(host@, path@, header_views(headers@), key@)),
{
    let mut out: Vec<char> = Vec::new();
    text::append_str(&mut out, "GET ");
    text::append_str(&mut out, path);
    text::append_str(&mut out, " HTTP/1.1\r\nHost: ");
    text::append_str(&mut out, host);
    text::append_str(
        &mut out,
        "\r\nUpgrade: websocket\r\nConnection: Upgrade\r\nSec-WebSocket-Key: ",
    );
    text::append_str(&mut out, key);
    text::append_str(&mut out, "\r\nSec-WebSocket-Version: 13\r\n");
    let ghost head = out@;
    let ghost views = header_views(headers@);
    let mut i: usize = 0;
    assert(out@ =~= head + header_lines(views.take(0)));
    while i < headers.len()
        invariant
            i <= headers@.len(),
            views == header_views(headers@),
            out@ == head + header_lines(views.take(i as int)),
        decreases headers@.len() - i,
    {
        let name = text::chars_of(headers[i].0.as_str());
        let value = text::chars_of(headers[i].1.as_str());
        proof {
            assert(views.take(i + 1).drop_last() =~= views.take(i as int));
            assert(views.take(i + 1).last() == (name@, value@));
        }
        let ghost before = out@;
        if !is_reserved_header(headers[i].0.as_str()) && !has_line_break(name.as_slice())
            && !has_line_break(value.as_slice()) {
            text::append_chars(&mut out, name.as_slice());
            text::append_str(&mut out, ": ");
            text::append_chars(&mut out, value.as_slice());
            text::append_str(&mut out, "\r\n");
            assert(out@ =~= head + header_lines(views.take(i + 1)));
        }
        i += 1;
    }
    assert(views.take(i as int) =~= views);
    text::append_str(&mut out, "\r\n");
    assert(out@ =~= request_text(host@, path@, views, key@));
    text::utf8_bytes(out.as_slice())
}

/// Builds an upgrade request, its key left to chance; returns both.
pub fn build_handshake_request(host: &str, path: &str, headers: Option<&Vec<(String, String)>>) -> (r:
    (Vec<u8>, String))
    ensures
        exists|nonce: Seq<u8>| nonce.len() == 16 && r.1@ == #[trigger] crypto::base64_text(nonce),
        r.0@ == encode_utf8(
            request_text(
                host@,
                path@,
                match headers {
                    Some(h) => header_views(h@),
                    None => seq![],
                },
                r.1@,
            ),
        ),
{
    let nonce = crypto::random_bytes(16);
    let key = crypto::base64_encode(nonce.as_slice());
    let request = match headers {
        Some(h) => build_handshake_with(host, path, h, key.as_str()),
        None => {
            let none: Vec<(String, String)> = Vec::new();
            assert(header_views(none@) =~= seq![]);
            build_handshake_with(host, path, &none, key.as_str())
        },
    };
    (request, key)
}

/// Begins a handshake: the request that a configuration makes, and its key,
/// which is left to chance. Without a host of its own it names the server.
pub fn connect_ws(default_host: &str, config: &WsConfig) -> (r: (Vec<u8>, String))
    ensures
        exists|nonce: Seq<u8>| nonce.len() == 16 && r.1@ == #[trigger] crypto::base64_text(nonce),
        is_upgrade(default_host@, config@, r.0@, r.1@),
{
    let path = match &config.path {
        Some(p) => normalize_path(Some(p.as_str())),
        None => normalize_path(None),
    };
    let host = match &config.host {
        Some(h) => h.as_str(),
        None => default_host,
    };
    match &config.headers {
        Some(h) => {
            assert(header_views(h@) == config::pair_list(h@));
            build_handshake_request(host, path.as_str(), Some(h))
        },
        None => build_handshake_request(host, path.as_str(), None),
    }
}

/// The text for a handshake that took too long.
pub open spec fn handshake_timeout_text(secs: u64) -> Seq<char> {
    "WebSocket handshake timed out after "@ + text::decimal(secs as nat) + "s"@
}

/// The text for a handshake that took too long.
pub fn handshake_timeout_message(secs: u64) -> (r: String)
    ensures
        r@ == handshake_timeout_text(secs),
{
    let mut out: Vec<char> = Vec::new();
    text::append_str(&mut out, "WebSocket handshake timed out after ");
    text::append_chars(&mut out, text::decimal_text(secs).as_slice());
    text::append_str(&mut out, "s");
    assert(out@ =~= handshake_timeout_text(secs));
    text::string_of(out.as_slice())
}

/// The value of the last accept header among lines of a response.
pub open spec fn accept_value(lines: Seq<Seq<char>>) -> Option<Seq<char>>
    decreases lines.len(),
{
    if lines.len() == 0 {
        None
    } else {
        let line = lines.last();
        let i = text::first_index(line, ':');
        if i < line.len() && text::same_ignoring_case(
            text::trimmed(line.take(i)),
            "sec-websocket-accept"@,
        ) {
            Some(text::trimmed(line.skip(i + 1)))
        } else {
            accept_value(lines.drop_last())
        }
    }
}

/// The status line switches protocols.
pub open spec fn is_switching(status: Seq<char>) -> bool {
    text::has_prefix(status, "HTTP/"@) && text::words(status).len() > 1 && text::words(status)[1]
        == "101"@
}

/// What is said of the answer `head` to an upgrade request that carried `key`.
pub open spec fn judged(r: Result<(), WsError>, head: Seq<char>, key: Seq<char>) -> bool {
    let lines = text::split_on_crlf(head);
    let accept = accept_value(lines.skip(1));
    if !is_switching(lines[0]) {
        r matches Err(WsError::UpgradeRejected(s)) && s@ == lines[0]
    } else if accept is None {
        r == Err::<(), WsError>(WsError::MissingAccept)
    } else if accept->0 != accept_key_of(key) {
        r matches Err(WsError::AcceptMismatch { got, expected }) && got@ == accept->0
            && expected@ == accept_key_of(key)
    } else {
        r == Ok::<(), WsError>(())
    }
}

/// Checks the head of the server's response: it must switch protocols and
/// accept the key.
pub fn validate_handshake_response(head: &str, key: &str) -> (r: Result<(), WsError>)
    ensures
        judged(r, head@, key@),
{
    let chars = text::chars_of(head);
    let lines = text::split_crlf(chars.as_slice());
    let ghost views = text::texts(lines@);
    assert(views[0] == lines@[0]@);
    let status = lines[0].as_slice();
    let prefix = text::chars_of("HTTP/");
    let words = text::split_words(status);
    assert(text::texts(words@).len() == words@.len());
    let code = text::chars_of("101");
    let switching = text::starts_with(status, prefix.as_slice()) && words.len() > 1
        && text::chars_eq(words[1].as_slice(), code.as_slice());
    proof {
        if words@.len() > 1 {
            assert(text::texts(words@)[1] == words@[1]@);
        }
    }
    if !switching {
        return Err(WsError::UpgradeRejected(text::string_of(status)));
    }
    let mut i: usize = lines.len();
    assert(views.skip(1) =~= views.subrange(1, i as int));
    while i > 1
        invariant
            1 <= i <= lines@.len(),
            views == text::texts(lines@),
            views == text::split_on_crlf(head@),
            is_switching(views[0]),
            accept_value(views.skip(1)) == accept_value(views.subrange(1, i as int)),
        decreases i,
    {
        i -= 1;
        let line = lines[i].as_slice();
        proof {
            assert(views.subrange(1, i + 1).last() == line@);
            assert(views.subrange(1, i + 1).drop_last() =~= views.subrange(1, i as int));
        }
        let n: usize = text::find_char(line, ':');
        if n < line.len() {
            let name = vstd::slice::slice_subrange(line, 0, n);
            let value = vstd::slice::slice_subrange(line, n + 1, line.len());
            assert(name@ =~= line@.take(n as int));
            assert(value@ =~= line@.skip(n + 1));
            if text::eq_ignore_case_str(text::trim(name), "sec-websocket-accept") {
                let got = text::trim(value);
                let expected = compute_accept_key(key);
                let want = text::chars_of(expected.as_str());
                if text::chars_eq(got, want.as_slice()) {
                    return Ok(());
                }
                return Err(WsError::AcceptMismatch { got: text::string_of(got), expected });
            }
        }
    }
    Err(WsError::MissingAccept)
}

/// How far the response to an upgrade request has come.
#[derive(Debug)]
pub enum HandshakeStep {
    /// The head is not complete: read on.
    More,
    /// The server switched; what follows the head begins at this position.
    Switched(usize),
    /// The handshake failed.
    Failed(WsError),
}

/// What follows from the bytes `buf` that have come since an upgrade request with `key` went out.
pub open spec fn stepped(r: HandshakeStep, buf: Seq<u8>, key: Seq<char>) -> bool {
    let end = http::header_end(buf);
    if end is Some {
        let head = text::lossy_text(buf.take(end->0));
        match r {
            HandshakeStep::Switched(n) => judged(Ok(()), head, key) && n == end->0 + 4 && n
                <= buf.len(),
            HandshakeStep::Failed(e) => judged(Err(e), head, key),
            HandshakeStep::More => false,
        }
    } else if buf.len() > MAX_HANDSHAKE_RESPONSE {
        r == HandshakeStep::Failed(WsError::ResponseTooLarge)
    } else {
        r == HandshakeStep::More
    }
}

/// Looks at what has arrived of a response. Bytes behind the head belong to
/// the stream.
pub fn handshake_step(buf: &[u8], key: &str) -> (r: HandshakeStep)
    ensures
        stepped(r, buf@, key@),
{
    match http::find_header_end(buf) {
        Some(pos) => {
            let part = vstd::slice::slice_subrange(buf, 0, pos);
            assert(part@ =~= buf@.take(pos as int));
            assert(buf.len() == buf@.len());
            let head = text::utf8_lossy(part);
            match validate_handshake_response(head.as_str(), key) {
                Ok(()) => HandshakeStep::Switched(pos + 4),
                Err(e) => HandshakeStep::Failed(e),
            }
        },
        None => if buf.len() > MAX_HANDSHAKE_RESPONSE {
            HandshakeStep::Failed(WsError::ResponseTooLarge)
        } else {
            HandshakeStep::More
        },
    }
}

/// A frame at the start of a buffer.
#[derive(Debug)]
pub struct Frame {
    pub opcode: u8,
    pub payload: Vec<u8>,
    /// How many bytes the frame takes.
    pub size: usize,
}

/// Reads the frame at the start of a buffer, if it is complete.
pub fn read_frame(buf: &[u8]) -> (r: Result<Option<Frame>, WsError>)
    ensures
        r is Err == is_too_large(buf@),
        r matches Err(e) ==> e == WsError::FrameTooLarge(announced_len(buf@) as u64),
        r matches Ok(None) ==> missing(buf@) > 0,
        r matches Ok(Some(f)) ==> missing(buf@) == 0 && f.size == header_len(buf@) + announced_len(
            buf@,
        ) && f.opcode == opcode_of(buf@) && f.payload@ == payload_of(buf@.take(f.size as int)),
{
    let h: usize = known_header_len(buf);
    if buf.len() < h {
        return Ok(None);
    }
    let header = match parse_header(buf) {
        Ok(v) => v,
        Err(n) => {
            return Err(WsError::FrameTooLarge(n));
        },
    };
    let size: usize = header.start + header.len;
    if buf.len() < size {
        return Ok(None);
    }
    let part = vstd::slice::slice_subrange(buf, 0, size);
    proof {
        assert(part@ =~= buf@.take(size as int));
        assert(part@[1] == buf@[1]);
        assert(header_len(part@) == header_len(buf@));
    }
    Ok(Some(Frame { opcode: header.opcode, payload: read_payload(part), size }))
}

impl WsError {
    /// The text that is shown for the error.
    pub open spec fn text(self) -> Seq<char> {
        match self {
            WsError::UpgradeRejected(s) => "WebSocket upgrade rejected: "@ + s@,
            WsError::MissingAccept => "WebSocket response missing Sec-WebSocket-Accept"@,
            WsError::AcceptMismatch { got, expected } =>
                "WebSocket Sec-WebSocket-Accept mismatch (got "@ + got@ + ", expected "@ + expected@
                    + ")"@,
            WsError::ResponseTooLarge => "WebSocket handshake response too large (>8192)"@,
            WsError::ClosedInHandshake => "connection closed during WebSocket handshake"@,
            WsError::FrameTooLarge(n) => "WS frame payload too large: "@ + text::decimal(n as nat)
                + " bytes"@,
            WsError::EofInHeader => "connection closed inside a WS frame header"@,
            WsError::EofInPayload => "connection closed inside a WS frame payload"@,
            WsError::WriteZero => "failed to write WS frame"@,
            WsError::Closed => "WS stream is closed"@,
        }
    }

    /// The text that is shown for the error.
    pub fn message(&self) -> (r: String)
        ensures
            r@ == self.text(),
    {
        let mut out: Vec<char> = Vec::new();
        match self {
            WsError::UpgradeRejected(s) => {
                text::append_str(&mut out, "WebSocket upgrade rejected: ");
                text::append_str(&mut out, s.as_str());
            },
            WsError::MissingAccept => {
                text::append_str(&mut out, "WebSocket response missing Sec-WebSocket-Accept");
            },
            WsError::AcceptMismatch { got, expected } => {
                text::append_str(&mut out, "WebSocket Sec-WebSocket-Accept mismatch (got ");
                text::append_str(&mut out, got.as_str());
                text::append_str(&mut out, ", expected ");
                text::append_str(&mut out, expected.as_str());
                text::append_str(&mut out, ")");
            },
            WsError::ResponseTooLarge => {
                text::append_str(&mut out, "WebSocket handshake response too large (>8192)");
            },
            WsError::ClosedInHandshake => {
                text::append_str(&mut out, "connection closed during WebSocket handshake");
            },
            WsError::FrameTooLarge(n) => {
                text::append_str(&mut out, "WS frame payload too large: ");
                let d = text::decimal_text(*n);
                text::append_chars(&mut out, d.as_slice());
                text::append_str(&mut out, " bytes");
            },
            WsError::EofInHeader => {
                text::append_str(&mut out, "connection closed inside a WS frame header");
            },
            WsError::EofInPayload => {
                text::append_str(&mut out, "connection closed inside a WS frame payload");
            },
            WsError::WriteZero => {
                text::append_str(&mut out, "failed to write WS frame");
            },
            WsError::Closed => {
                text::append_str(&mut out, "WS stream is closed");
            },
        }
        assert(out@ =~= self.text());
        text::string_of(out.as_slice())
    }
}

/// A frame of the client is laid out as every peer expects: the last-frame bit and the opcode,
/// the mask bit and the length in the shortest of its three forms, the mask, and the payload
/// under the mask.
pub proof fn law_client_frame_layout(opcode: u8, payload: Seq<u8>, key: Seq<u8>)
    requires
        opcode < 16,
        key.len() == 4,
        payload.len() <= u64::MAX,
    ensures
        ({
            let f = frame_bytes(opcode, payload, Some(key));
            let n = payload.len();
            let at: int = if n <= 125 {
                6
            } else if n <= 65535 {
                8
            } else {
                14
            };
            &&& f.len() == at + n
            &&& f[0] == 128 + opcode
            &&& n <= 125 ==> f[1] == 128 + n
            &&& 125 < n <= 65535 ==> f[1] == 254 && f[2] * 256 + f[3] == n
            &&& 65535 < n ==> f[1] == 255 && net::be_value(f.subrange(2, 10)) == n
            &&& f.subrange(at - 4, at) == key
            &&& forall|i: int| 0 <= i < n ==> #[trigger] f[at + i] == payload[i] ^ key[i % 4]
        }),
{
    let n = payload.len();
    let f = frame_bytes(opcode, payload, Some(key));
    assert(128u8 | opcode == 128 + opcode) by (bit_vector)
        requires
            opcode < 16u8,
    ;
    net::lemma_powers_of_256();
    net::lemma_be_round_trip(n, 8);
    net::lemma_be_bytes_len(n, 2);
    net::lemma_be_bytes_len(n, 8);
    let at: int = if n <= 125 {
        6
    } else if n <= 65535 {
        8
    } else {
        14
    };
    assert(f.subrange(at - 4, at) =~= key);
    if 125 < n <= 65535 {
        net::law_high_bytes_first(n, 2);
        net::law_high_bytes_first(n / 256, 1);
        let b = net::be_bytes(n, 2);
        assert(b.drop_last().last() == b[0]);
        assert(f[2] == b[0] && f[3] == b[1]);
    } else if n > 65535 {
        assert(f.subrange(2, 10) =~= net::be_bytes(n, 8));
    }
    assert forall|i: int| 0 <= i < n implies #[trigger] f[at + i] == payload[i] ^ key[i % 4] by {
        assert(f[at + i] == masked(payload, key)[i]);
    }
}

/// A whole frame of the server, which is not masked, is read by its bytes: the opcode is the
/// low half of the first, the length stands in the second or behind it, and the rest is the
/// payload.
pub proof fn law_server_frame_is_read(raw: Seq<u8>, n: nat)
    requires
        2 <= raw.len(),
        n <= 0x400_0000,
        ({
            ||| n <= 125 && raw[1] == n && raw.len() == 2 + n
            ||| raw[1] == 126 && raw.len() == 4 + n && raw[2] * 256 + raw[3] == n
            ||| raw[1] == 127 && raw.len() == 10 + n && net::be_value(raw.subrange(2, 10)) == n
        }),
    ensures
        missing(raw) == 0,
        !is_too_large(raw),
        opcode_of(raw) == raw[0] % 16,
        payload_of(raw) == raw.skip(raw.len() - n),
{
    if raw[1] == 126 {
        let b = raw.subrange(2, 4);
        assert(b.drop_last().drop_last() =~= Seq::<u8>::empty());
        assert(b.drop_last().last() == raw[2] && b.last() == raw[3]);
        reveal_with_fuel(net::be_value, 3);
    }
}

/// A frame that announces more than the limit is refused as soon as its header is there.
pub proof fn law_long_frame_is_refused(raw: Seq<u8>)
    requires
        raw.len() >= 10,
        raw[1] == 127,
        net::be_value(raw.subrange(2, 10)) > 0x400_0000,
    ensures
        is_too_large(raw),
{
}

/// A line is the header `name` with what stands behind its colon.
pub open spec fn is_field(line: Seq<char>, name: Seq<char>, value: Seq<char>) -> bool {
    line == name + seq![':'] + value && !name.contains(':')
}

/// A line bears the proof that the server has read the key.
pub open spec fn bears_proof(line: Seq<char>) -> bool {
    exists|name: Seq<char>, value: Seq<char>| #[trigger]
        is_field(line, name, value) && text::same_ignoring_case(
            text::trimmed(name),
            "sec-websocket-accept"@,
        )
}

proof fn lemma_field(line: Seq<char>, name: Seq<char>, value: Seq<char>)
    requires
        is_field(line, name, value),
    ensures
        text::first_index(line, ':') == name.len(),
        line.take(name.len() as int) == name,
        line.skip((name.len() + 1) as int) == value,
{
    assert forall|k: int| 0 <= k < name.len() implies line[k] != ':' by {
        assert(name.contains(name[k]) && line[k] == name[k]);
    }
    text::lemma_first_index_unique(line, ':', name.len() as int);
    assert(line.take(name.len() as int) =~= name);
    assert(line.skip((name.len() + 1) as int) =~= value);
}

proof fn lemma_no_proof(line: Seq<char>)
    requires
        !bears_proof(line),
    ensures
        ({
            let i = text::first_index(line, ':');
            !(i < line.len() && text::same_ignoring_case(
                text::trimmed(line.take(i)),
                "sec-websocket-accept"@,
            ))
        }),
{
    let i = text::first_index(line, ':');
    text::lemma_first_index(line, ':');
    if i < line.len() {
        assert(line =~= line.take(i) + seq![':'] + line.skip(i + 1));
        assert(!line.take(i).contains(':'));
        assert(is_field(line, line.take(i), line.skip(i + 1)));
    }
}

proof fn lemma_accept_value(lines: Seq<Seq<char>>, k: int)
    requires
        -1 <= k < lines.len(),
        k >= 0 ==> bears_proof(lines[k]),
        forall|j: int| k < j < lines.len() ==> !bears_proof(#[trigger] lines[j]),
    ensures
        k < 0 ==> accept_value(lines) is None,
        k >= 0 ==> accept_value(lines) == Some(
            text::trimmed(lines[k].skip(text::first_index(lines[k], ':') + 1)),
        ),
    decreases lines.len(),
{
    if lines.len() > 0 {
        if k == lines.len() - 1 {
            let (name, value) = choose|name: Seq<char>, value: Seq<char>| #[trigger]
                is_field(lines[k], name, value) && text::same_ignoring_case(
                    text::trimmed(name),
                    "sec-websocket-accept"@,
                );
            lemma_field(lines[k], name, value);
        } else {
            lemma_no_proof(lines.last());
            assert(lines.drop_last()[k] == lines[k] || k < 0);
            lemma_accept_value(lines.drop_last(), k);
        }
    }
}

/// The upgrade is accepted exactly where the server says 101 and its last proof, with the blanks
/// round it taken off, is the digest of the key and the identifier that the protocol fixes.
pub proof fn law_upgrade_needs_the_proof_of_the_key(
    head: Seq<char>,
    key: Seq<char>,
    k: int,
    name: Seq<char>,
    value: Seq<char>,
    r: Result<(), WsError>,
)
    requires
        judged(r, head, key),
        0 < k < text::split_on_crlf(head).len(),
        is_field(text::split_on_crlf(head)[k], name, value),
        text::same_ignoring_case(text::trimmed(name), "sec-websocket-accept"@),
        forall|j: int|
            k < j < text::split_on_crlf(head).len() ==> !bears_proof(
                #[trigger] text::split_on_crlf(head)[j],
            ),
    ensures
        ({
            let words = text::words(text::split_on_crlf(head)[0]);
            r is Ok == (text::has_prefix(text::split_on_crlf(head)[0], "HTTP/"@) && words.len() >= 2
                && words[1] == "101"@ && text::trimmed(value) == crypto::base64_text(
                crypto::sha1_of(
                    encode_utf8(key) + encode_utf8("258EAFA5-E914-47DA-95CA-C5AB0DC85B11"@),
                ),
            ))
        }),
{
    let lines = text::split_on_crlf(head);
    let rest = lines.skip(1);
    assert(rest[k - 1] == lines[k]);
    assert(bears_proof(lines[k]));
    assert forall|j: int| k - 1 < j < rest.len() implies !bears_proof(#[trigger] rest[j]) by {
        assert(rest[j] == lines[j + 1]);
    }
    lemma_accept_value(rest, k - 1);
    lemma_field(lines[k], name, value);
}

/// An answer without such a proof is never accepted.
pub proof fn law_no_proof_no_upgrade(head: Seq<char>, key: Seq<char>, r: Result<(), WsError>)
    requires
        judged(r, head, key),
        forall|j: int|
            0 < j < text::split_on_crlf(head).len() ==> !bears_proof(
                #[trigger] text::split_on_crlf(head)[j],
            ),
    ensures
        r is Err,
{
    let lines = text::split_on_crlf(head);
    let rest = lines.skip(1);
    assert forall|j: int| -1 < j < rest.len() implies !bears_proof(#[trigger] rest[j]) by {
        assert(rest[j] == lines[j + 1]);
    }
    lemma_accept_value(rest, -1);
}

/// What stands behind the blank line of an accepted answer is the start of the stream, and an
/// answer without a blank line is waited for up to the limit.
pub proof fn law_stream_starts_behind_the_answer(buf: Seq<u8>, key: Seq<char>, r: HandshakeStep)
    requires
        stepped(r, buf, key),
    ensures
        r matches HandshakeStep::Switched(n) ==> 4 <= n <= buf.len() && buf.subrange(n - 4, n as int)
            == seq![13u8, 10, 13, 10] && judged(Ok(()), text::lossy_text(buf.take(n - 4)), key),
        http::header_end(buf) is None ==> match r {
            HandshakeStep::More => buf.len() <= 8192,
            HandshakeStep::Failed(e) => buf.len() > 8192 && e is ResponseTooLarge,
            HandshakeStep::Switched(_) => false,
        },
{
    lemma_blank_line(buf);
    if let HandshakeStep::Switched(n) = r {
        assert(buf.subrange(n - 4, n as int) =~= seq![13u8, 10, 13, 10]);
    }
}

proof fn lemma_blank_line(b: Seq<u8>)
    ensures
        http::header_end(b) matches Some(i) ==> 0 <= i && i + 4 <= b.len() && b[i] == 13 && b[i + 1]
            == 10 && b[i + 2] == 13 && b[i + 3] == 10,
    decreases b.len(),
{
    if b.len() >= 4 && !http::is_blank_line(b, 0) {
        lemma_blank_line(b.drop_first());
    }
}

/// The upgrade request names the path first, then the host, what it asks for, the key and the
/// version, each in a line of its own, and ends with a blank line.
pub proof fn law_upgrade_request_lines(
    host: Seq<char>,
    path: Seq<char>,
    headers: Seq<(Seq<char>, Seq<char>)>,
    key: Seq<char>,
)
    ensures
        ({
            let t = request_text(host, path, headers, key);
            &&& text::has_prefix(t, "GET "@ + path + " HTTP/1.1\r\n"@)
            &&& text::contains_text(t, "\r\nHost: "@ + host + "\r\n"@)
            &&& text::contains_text(t, "\r\nUpgrade: websocket\r\n"@)
            &&& text::contains_text(t, "\r\nConnection: Upgrade\r\n"@)
            &&& text::contains_text(t, "\r\nSec-WebSocket-Key: "@ + key + "\r\n"@)
            &&& text::contains_text(t, "\r\nSec-WebSocket-Version: 13\r\n"@)
            &&& text::has_suffix(t, "\r\n\r\n"@)
        }),
{
    reveal_strlit("GET ");
    reveal_strlit(" HTTP/1.1\r\n");
    reveal_strlit(" HTTP/1.1\r\nHost: ");
    reveal_strlit("\r\nHost: ");
    reveal_strlit("\r\n");
    reveal_strlit("\r\n\r\n");
    reveal_strlit("\r\nUpgrade: websocket\r\n");
    reveal_strlit("\r\nConnection: Upgrade\r\n");
    reveal_strlit("\r\nSec-WebSocket-Key: ");
    reveal_strlit("\r\nSec-WebSocket-Version: 13\r\n");
    reveal_strlit("\r\nUpgrade: websocket\r\nConnection: Upgrade\r\nSec-WebSocket-Key: ");
    let t = request_text(host, path, headers, key);
    let a = (path.len() + 13) as int;
    let b: int = a + 8 + host.len();
    let c: int = b + 20;
    let d: int = c + 21;
    let e: int = d + 21 + key.len();
    assert(t.take(a + 2) =~= "GET "@ + path + " HTTP/1.1\r\n"@);
    assert(text::occurs_at(t, "\r\nHost: "@ + host + "\r\n"@, a)) by {
        assert(t.subrange(a, a + 8 + host.len() + 2) =~= "\r\nHost: "@ + host + "\r\n"@);
    }
    assert(text::occurs_at(t, "\r\nUpgrade: websocket\r\n"@, b)) by {
        assert(t.subrange(b, b + 22) =~= "\r\nUpgrade: websocket\r\n"@);
    }
    assert(text::occurs_at(t, "\r\nConnection: Upgrade\r\n"@, c)) by {
        assert(t.subrange(c, c + 23) =~= "\r\nConnection: Upgrade\r\n"@);
    }
    assert(text::occurs_at(t, "\r\nSec-WebSocket-Key: "@ + key + "\r\n"@, d)) by {
        assert(t.subrange(d, d + 21 + key.len() + 2) =~= "\r\nSec-WebSocket-Key: "@ + key
            + "\r\n"@);
    }
    assert(text::occurs_at(t, "\r\nSec-WebSocket-Version: 13\r\n"@, e)) by {
        assert(t.subrange(e, e + 29) =~= "\r\nSec-WebSocket-Version: 13\r\n"@);
    }
    lemma_lines_end(headers);
    let l = header_lines(headers);
    if l.len() > 0 {
        let m = l.len();
        assert(l[m - 2] == l.skip(m - 2)[0] && l[m - 1] == l.skip(m - 2)[1]);
        assert(t[t.len() - 4] == l[m - 2] && t[t.len() - 3] == l[m - 1]);
    }
    assert(t.skip(t.len() - 4) =~= "\r\n\r\n"@);
}

proof fn lemma_lines_end(h: Seq<(Seq<char>, Seq<char>)>)
    ensures
        header_lines(h).len() > 0 ==> text::has_suffix(header_lines(h), "\r\n"@),
    decreases h.len(),
{
    reveal_strlit("\r\n");
    if h.len() > 0 {
        lemma_lines_end(h.drop_last());
        let l = header_lines(h);
        if l != header_lines(h.drop_last()) {
            assert(l.skip(l.len() - 2) =~= "\r\n"@);
        }
    }
}

/// A header of the configuration stands behind those before it as a line of its own; one that
/// would replace a line of the handshake, or break out of its line, is left out.
pub proof fn law_configured_headers_are_sent(
    h: Seq<(Seq<char>, Seq<char>)>,
    name: Seq<char>,
    value: Seq<char>,
)
    ensures
        ({
            let reserved = text::same_ignoring_case(name, "Host"@) || text::same_ignoring_case(
                name,
                "Upgrade"@,
            ) || text::same_ignoring_case(name, "Connection"@) || text::same_ignoring_case(
                name,
                "Sec-WebSocket-Key"@,
            ) || text::same_ignoring_case(name, "Sec-WebSocket-Version"@);
            let broken = (name + value).contains('\r') || (name + value).contains('\n');
            header_lines(h.push((name, value))) == header_lines(h) + (if reserved || broken {
                Seq::<char>::empty()
            } else {
                name + ": "@ + value + "\r\n"@
            })
        }),
{
    let g = h.push((name, value));
    assert(g.drop_last() =~= h);
    reveal_strlit("host");
    reveal_strlit("Host");
    reveal_strlit("upgrade");
    reveal_strlit("Upgrade");
    reveal_strlit("connection");
    reveal_strlit("Connection");
    reveal_strlit("sec-websocket-key");
    reveal_strlit("Sec-WebSocket-Key");
    reveal_strlit("sec-websocket-version");
    reveal_strlit("Sec-WebSocket-Version");
    assert(text::ascii_lowercase("host"@) =~= text::ascii_lowercase("Host"@));
    assert(text::ascii_lowercase("upgrade"@) =~= text::ascii_lowercase("Upgrade"@));
    assert(text::ascii_lowercase("connection"@) =~= text::ascii_lowercase("Connection"@));
    assert(text::ascii_lowercase("sec-websocket-key"@) =~= text::ascii_lowercase(
        "Sec-WebSocket-Key"@,
    ));
    assert(text::ascii_lowercase("sec-websocket-version"@) =~= text::ascii_lowercase(
        "Sec-WebSocket-Version"@,
    ));
    lemma_joined_contains(name, value, '\r');
    lemma_joined_contains(name, value, '\n');
    let l = header_lines(h);
    assert(l + name + ": "@ + value + "\r\n"@ =~= l + (name + ": "@ + value + "\r\n"@));
    assert(l + Seq::<char>::empty() =~= l);
}

proof fn lemma_joined_contains(a: Seq<char>, b: Seq<char>, c: char)
    ensures
        (a + b).contains(c) == (a.contains(c) || b.contains(c)),
{
    if a.contains(c) {
        let i = choose|i: int| 0 <= i < a.len() && a[i] == c;
        assert((a + b)[i] == c);
    }
    if b.contains(c) {
        let i = choose|i: int| 0 <= i < b.len() && b[i] == c;
        assert((a + b)[a.len() + i] == c);
    }
    if (a + b).contains(c) {
        let i = choose|i: int| 0 <= i < (a + b).len() && (a + b)[i] == c;
        assert(if i < a.len() { a[i] == c } else { b[i - a.len()] == c });
    }
}

/// The path of the request starts with a slash, and a configured one is kept behind it.
pub proof fn law_path_starts_with_a_slash(path: Seq<char>)
    ensures
        normalized_path(None) == "/"@,
        normalized_path(Some("/"@ + path)) == "/"@ + path,
        !(path.len() > 0 && path[0] == '/') ==> normalized_path(Some(path)) == "/"@ + path,
{
    reveal_strlit("/");
    assert("/"@ =~= seq!['/']);
    assert("/"@ + Seq::<char>::empty() =~= "/"@);
    assert(path.len() == 0 ==> path =~= Seq::<char>::empty());
}

/// What a read comes to.
pub open spec fn polled(m: WsModel, room: usize, r: ReadStep, after: WsModel) -> bool {
    let n = missing(m.raw);
    if m.ready.len() > 0 {
        let k = smaller(room as nat, m.ready.len());
        &&& r matches ReadStep::Deliver(d) && d@ == m.ready.take(k as int)
        &&& after == (WsModel { ready: m.ready.skip(k as int), ..m })
    } else if room == 0 || m.eof {
        &&& r matches ReadStep::Deliver(d) && d@ == Seq::<u8>::empty()
        &&& after == m
    } else if m.ctrl_flush {
        &&& r == ReadStep::Flush
        &&& after == m
    } else if m.closing {
        &&& r matches ReadStep::Deliver(d) && d@ == Seq::<u8>::empty()
        &&& after == (WsModel { eof: true, ..m })
    } else if is_too_large(m.raw) {
        &&& r == ReadStep::Fail(WsError::FrameTooLarge(announced_len(m.raw) as u64))
        &&& after == m
    } else if m.leftover.len() > 0 {
        let k = smaller(n, m.leftover.len()) as int;
        let rest = WsModel { leftover: m.leftover.skip(k), ..m };
        &&& r == ReadStep::Again
        &&& absorbed_somehow(rest, m.leftover.take(k), after)
    } else {
        &&& r == ReadStep::Fill(n as usize)
        &&& 0 < n <= usize::MAX
        &&& after == m
    }
}

/// What the end of the transport comes to.
pub open spec fn ended(m: WsModel, r: Result<(), WsError>, after: WsModel) -> bool {
    if m.raw.len() == 0 {
        &&& r == Ok::<(), WsError>(())
        &&& after == (WsModel { eof: true, ..m })
    } else {
        &&& r == Err::<(), WsError>(
            if has_header(m.raw) {
                WsError::EofInPayload
            } else {
                WsError::EofInHeader
            },
        )
        &&& after == m
    }
}

/// What an offer of bytes comes to, with the key for the frame that may be made of them.
pub open spec fn offered(
    m: WsModel,
    data: Seq<u8>,
    key: Seq<u8>,
    r: WriteStep,
    after: WsModel,
) -> bool {
    let n = smaller(data.len(), WRITE_BUF_SIZE as nat);
    if m.closed {
        &&& r == WriteStep::Fail(WsError::Closed)
        &&& after == m
    } else if m.in_flight is Some || m.pending.len() > 0 {
        &&& r == WriteStep::Drain
        &&& after == m
    } else if data.len() == 0 {
        &&& r == WriteStep::Done(0)
        &&& after == m
    } else {
        &&& r == WriteStep::Drain
        &&& after == written(m, data, n, key)
    }
}

/// What it comes to that the transport took `n` of the bytes.
pub open spec fn sent(m: WsModel, n: usize, r: Result<(), WsError>, after: WsModel) -> bool {
    &&& n == 0 ==> r == Err::<(), WsError>(WsError::WriteZero) && after == (WsModel {
        pending: seq![],
        ..m
    })
    &&& n > 0 ==> r == Ok::<(), WsError>(()) && after == (WsModel {
        pending: m.pending.skip(n as int),
        ..m
    })
}

/// What the writer is told once the frame is on its way.
pub open spec fn finished(m: WsModel, r: Option<usize>, after: WsModel) -> bool {
    &&& r == m.in_flight
    &&& after == (WsModel { in_flight: None, ..m })
}

/// A reader gets the bytes in order: what it is handed now and what is left for it make up what
/// there was, and it gets some wherever there are some and it has room.
pub proof fn law_reader_gets_bytes_in_order(m: WsModel, room: usize, r: ReadStep, after: WsModel)
    requires
        polled(m, room, r, after),
        m.ready.len() > 0,
        room > 0,
    ensures
        r matches ReadStep::Deliver(d) && 0 < d@.len() <= room && d@ + after.ready == m.ready,
        after == (WsModel { ready: after.ready, ..m }),
{
    let k = smaller(room as nat, m.ready.len()) as int;
    assert(m.ready.take(k) + m.ready.skip(k) =~= m.ready);
}

/// A reader without bytes is told of the end only where the stream has ended, and waits for what
/// the frame still lacks otherwise; a control frame is answered first.
pub proof fn law_reader_waits_for_the_frame(m: WsModel, room: usize, r: ReadStep, after: WsModel)
    requires
        polled(m, room, r, after),
        m.ready.len() == 0,
        room > 0,
    ensures
        r matches ReadStep::Deliver(d) ==> d@.len() == 0 && after.eof && (m.eof || m.closing),
        r matches ReadStep::Fill(n) ==> n == missing(m.raw) && m.leftover.len() == 0,
        m.ctrl_flush && !m.eof ==> r is Flush,
        r is Again ==> m.leftover.len() > 0,
{
}

/// What a writer offers goes out as one binary frame of at most 16384 bytes, which reads back as
/// the first of them, once what was offered before is gone; the writer is told how many went
/// when the frame is on its way, and not before.
pub proof fn law_offer_becomes_a_frame(
    m: WsModel,
    data: Seq<u8>,
    key: Seq<u8>,
    r: WriteStep,
    after: WsModel,
    told: Option<usize>,
    last: WsModel,
)
    requires
        key.len() == 4,
        data.len() > 0,
        !m.closed,
        m.in_flight is None,
        m.pending.len() == 0,
        offered(m, data, key, r, after),
        finished(WsModel { pending: seq![], ..after }, told, last),
    ensures
        ({
            let n: int = if data.len() < 16384 {
                data.len() as int
            } else {
                16384
            };
            &&& r is Drain
            &&& missing(after.pending) == 0
            &&& opcode_of(after.pending) == 2
            &&& payload_of(after.pending) == data.take(n)
            &&& told == Some(n as usize)
            &&& last == m
        }),
{
    let n: int = if data.len() < 16384 {
        data.len() as int
    } else {
        16384
    };
    law_frame_round_trip(OPCODE_BINARY, data.take(n), Some(key));
    assert(m.pending =~= seq![]);
}

/// A frame that is still on its way goes first, and a closed stream takes nothing.
pub proof fn law_frames_do_not_overtake(
    m: WsModel,
    data: Seq<u8>,
    key: Seq<u8>,
    r: WriteStep,
    after: WsModel,
)
    requires
        offered(m, data, key, r, after),
    ensures
        m.closed ==> r == WriteStep::Fail(WsError::Closed) && after == m,
        !m.closed && (m.in_flight is Some || m.pending.len() > 0) ==> r is Drain && after == m,
{
}

/// What the transport took and what is left for it make up what there was; a transport that
/// takes nothing is an error.
pub proof fn law_bytes_go_out_in_order(
    m: WsModel,
    n: usize,
    r: Result<(), WsError>,
    after: WsModel,
)
    requires
        n <= m.pending.len(),
        sent(m, n, r, after),
    ensures
        r is Ok == (n > 0),
        n > 0 ==> m.pending.take(n as int) + after.pending == m.pending,
        after.in_flight == m.in_flight,
{
    assert(m.pending.take(n as int) + m.pending.skip(n as int) =~= m.pending);
}

/// An end of the transport between two frames ends the stream; one inside a frame is an error.
pub proof fn law_end_inside_a_frame_is_an_error(m: WsModel, r: Result<(), WsError>, after: WsModel)
    requires
        ended(m, r, after),
    ensures
        r is Ok == (m.raw.len() == 0),
        r is Ok ==> after.eof,
        0 < m.raw.len() < 2 ==> r == Err::<(), WsError>(WsError::EofInHeader),
{
}

/// The request for a configured stream, with the key that it carries.
pub open spec fn is_upgrade(
    default_host: Seq<char>,
    config: config::WsModel,
    request: Seq<u8>,
    key: Seq<char>,
) -> bool {
    request == encode_utf8(
        request_text(
            match config.host {
                Some(h) => h,
                None => default_host,
            },
            normalized_path(config.path),
            match config.headers {
                Some(h) => h,
                None => seq![],
            },
            key,
        ),
    )
}

/// The request asks for the configured path at the configured host; without one it names the
/// server, and without a path the root.
pub proof fn law_upgrade_asks_for_the_configured_path(
    server: Seq<char>,
    config: config::WsModel,
    request: Seq<u8>,
    key: Seq<char>,
    path: Seq<char>,
) -> (t: Seq<char>)
    requires
        is_upgrade(server, config, request, key),
        config.path == Some("/"@ + path) || config.path is None && path.len() == 0,
    ensures
        request == encode_utf8(t),
        text::has_prefix(t, "GET "@ + ("/"@ + path) + " HTTP/1.1\r\n"@),
        config.host is None ==> text::contains_text(t, "\r\nHost: "@ + server + "\r\n"@),
        config.host matches Some(h) ==> text::contains_text(t, "\r\nHost: "@ + h + "\r\n"@),
        text::contains_text(t, "\r\nSec-WebSocket-Key: "@ + key + "\r\n"@),
{
    let host = match config.host {
        Some(h) => h,
        None => server,
    };
    let headers = match config.headers {
        Some(h) => h,
        None => seq![],
    };
    let full = normalized_path(config.path);
    law_path_starts_with_a_slash(path);
    assert(config.path is None ==> "/"@ + path =~= "/"@);
    law_upgrade_request_lines(host, full, headers, key);
    request_text(host, full, headers, key)
}

/// The end of a stream is told to the peer by a frame with the opcode 8, once, behind everything
/// that is still on its way.
pub proof fn law_end_is_told_once(m: WsModel, key: Seq<u8>)
    requires
        key.len() == 4,
    ensures
        ({
            let n = shutting_down(m, key);
            &&& n.close_sent
            &&& m.close_sent ==> n == m
            &&& !m.close_sent ==> n.pending.len() == m.pending.len() + 6 && n.pending.take(
                m.pending.len() as int,
            ) == m.pending && n.pending[m.pending.len() as int] == 0x88
            &&& shutting_down(n, key) == n
        }),
{
    let n = shutting_down(m, key);
    law_client_frame_layout(OPCODE_CLOSE, seq![], key);
    if !m.close_sent {
        assert(n.pending.take(m.pending.len() as int) =~= m.pending);
    }
}

} // verus!
