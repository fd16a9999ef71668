//! shadow-tls: the tap on the TLS handshake and the frame codec behind it.

use crate::bytes;
use crate::crypto;
use crate::net;
use crate::proxy::ss;
use crate::proxy::ss::SsError;
use crate::proxy::ss::{SsOutbound, SsTarget};
use crate::text;
use vstd::prelude::*;
use vstd::string::StringSliceAdditionalSpecFns;

verus! {

broadcast use {
    vstd::seq::group_seq_axioms,
    vstd::slice::group_slice_axioms,
    vstd::array::group_array_axioms,
    vstd::string::group_string_axioms,
    vstd::std_specs::vec::group_vec_axioms,
};

pub const TLS_HANDSHAKE: u8 = 0x16;

pub const TLS_APPLICATION_DATA: u8 = 0x17;

pub const TLS_ALERT: u8 = 0x15;

pub const SERVER_HELLO: u8 = 0x02;

pub const TLS_HEADER_SIZE: usize = 5;

pub const HMAC_SIZE: usize = 4;

/// Header and tag of a frame.
pub const TLS_HMAC_HEADER_SIZE: usize = 9;

pub const TLS_RANDOM_SIZE: usize = 32;

/// The most payload that a frame carries: its length covers the tag too.
pub const MAX_FRAME_PAYLOAD: usize = 65531;

/// Where the server's random stands in a record.
pub const SERVER_RANDOM_IDX: usize = 11;

/// The number of the extension that names the negotiated version.
pub const SUPPORTED_VERSIONS_TYPE: u16 = 43;

pub const TLS_13: u16 = 0x0304;

/// Why a shadow-tls stream failed.
#[derive(Debug, Clone, Copy, PartialEq, Eq, Structural)]
pub enum ShadowTlsError {
    /// The transport ended inside a TLS record of the handshake.
    EofInRecord,
    /// The transport ended inside a frame.
    EofInFrame,
    /// A frame is shorter than its tag.
    ShortFrame,
    /// A frame has another content type, or another version.
    UnexpectedType(u8),
    /// The tag of a frame does not fit.
    TagMismatch,
    /// The transport took no bytes of a frame.
    WriteZero,
    /// The transport took no bytes of a frame in a flush.
    FlushZero,
}

// ---------------------------------------------------------------------------
// Tags and keys
// ---------------------------------------------------------------------------

/// The tag of a message: the first four bytes of its HMAC-SHA1.
pub open spec fn tag_of(key: Seq<u8>, msg: Seq<u8>) -> Seq<u8> {
    Seq::new(4, |i: int| crypto::hmac_sha1_of(key, msg)[i])
}

/// The parts one behind the other.
pub open spec fn joined(parts: Seq<&[u8]>) -> Seq<u8>
    decreases parts.len(),
{
    if parts.len() == 0 {
        seq![]
    } else {
        joined(parts.drop_last()) + parts.last()@
    }
}

/// An HMAC-SHA1 under the password that was fed the parts.
pub fn hmac_password(password: &str, parts: &[&[u8]]) -> (r: crypto::RollingMac)
    ensures
        crypto::mac_key(r) == password.spec_bytes(),
        crypto::mac_fed(r) == joined(parts@),
{
    let mut mac = crypto::mac_new(password.as_bytes());
    let mut i: usize = 0;
    assert(joined(parts@.take(0)) =~= seq![]);
    while i < parts.len()
        invariant
            i <= parts@.len(),
            crypto::mac_key(mac) == password.spec_bytes(),
            crypto::mac_fed(mac) == joined(parts@.take(i as int)),
        decreases parts@.len() - i,
    {
        assert(parts@.take(i + 1).drop_last() =~= parts@.take(i as int));
        crypto::mac_update(&mut mac, parts[i]);
        i += 1;
    }
    assert(parts@.take(i as int) =~= parts@);
    mac
}

/// The tag of what a computation was fed.
pub fn mac4(mac: &crypto::RollingMac) -> (r: Vec<u8>)
    ensures
        r@ == tag_of(crypto::mac_key(*mac), crypto::mac_fed(*mac)),
        r@.len() == 4,
{
    let value = crypto::mac_value(mac);
    let part = vstd::slice::slice_subrange(value.as_slice(), 0, 4);
    assert(part@ =~= tag_of(crypto::mac_key(*mac), crypto::mac_fed(*mac)));
    vstd::slice::slice_to_vec(part)
}

/// The key that is laid over the server's first encrypted record.
pub open spec fn splice_key_of(password: Seq<u8>, server_random: Seq<u8>) -> Seq<u8> {
    crypto::sha256_of(password + server_random)
}

/// The key that is laid over the server's first encrypted record.
pub fn kdf(password: &str, server_random: &[u8; 32]) -> (r: [u8; 32])
    ensures
        r@ == splice_key_of(password.spec_bytes(), server_random@),
{
    let mut msg: Vec<u8> = Vec::new();
    text::append_bytes(&mut msg, password.as_bytes());
    text::append_bytes(&mut msg, server_random.as_slice());
    assert(msg@ =~= password.spec_bytes() + server_random@);
    let digest = crypto::sha256(msg.as_slice());
    assert(digest@.take(32) =~= digest@);
    bytes::array32(digest.as_slice())
}

// ---------------------------------------------------------------------------
// ServerHello
// ---------------------------------------------------------------------------

/// Two bytes of a record as a number.
pub open spec fn word_at(record: Seq<u8>, i: int) -> int {
    record[i] * 256 + record[i + 1]
}

/// Extensions between `pos` and `end` name TLS 1.3: the first one of the right
/// type has the two bytes of that version.
pub open spec fn names_tls13(record: Seq<u8>, pos: int, end: int) -> bool
    decreases end - pos,
{
    if pos < 0 || pos + 4 > end {
        false
    } else {
        let len = word_at(record, pos + 2);
        if pos + 4 + len > end {
            false
        } else if word_at(record, pos) == SUPPORTED_VERSIONS_TYPE {
            len == 2 && word_at(record, pos + 4) == TLS_13
        } else {
            names_tls13(record, pos + 4 + len, end)
        }
    }
}

/// Where the length of the extensions stands in a ServerHello record.
pub open spec fn extensions_pos(record: Seq<u8>) -> int {
    record[SERVER_RANDOM_IDX + TLS_RANDOM_SIZE] + SERVER_RANDOM_IDX + TLS_RANDOM_SIZE + 4
}

/// A ServerHello record negotiates TLS 1.3.
pub open spec fn is_tls13(record: Seq<u8>) -> bool {
    let pos = extensions_pos(record);
    if SERVER_RANDOM_IDX + TLS_RANDOM_SIZE >= record.len() || pos + 2 > record.len() {
        false
    } else {
        let end = pos + 2 + word_at(record, pos);
        names_tls13(
            record,
            pos + 2,
            if end < record.len() {
                end
            } else {
                record.len() as int
            },
        )
    }
}

fn read_word(record: &[u8], i: usize) -> (r: usize)
    requires
        i + 1 < record@.len(),
    ensures
        r == word_at(record@, i as int),
        r <= 0xffff,
{
    assert(record.len() == record@.len());
    record[i] as usize * 256 + record[i + 1] as usize
}

/// Whether a ServerHello record negotiates TLS 1.3.
pub fn support_tls13(record: &[u8]) -> (r: bool)
    ensures
        r == is_tls13(record@),
{
    let n: usize = record.len();
    let at: usize = SERVER_RANDOM_IDX + TLS_RANDOM_SIZE;
    if at >= n {
        return false;
    }
    let start: usize = record[at] as usize + at + 4;
    if n < 2 || start > n - 2 {
        return false;
    }
    let total: usize = read_word(record, start);
    let mut pos: usize = start + 2;
    let end: usize = if total < n - pos { pos + total } else { n };
    while end >= 4 && pos <= end - 4
        invariant
            end <= n,
            n == record@.len(),
            is_tls13(record@) == names_tls13(record@, pos as int, end as int),
        decreases end - pos,
    {
        let kind: usize = read_word(record, pos);
        let len: usize = read_word(record, pos + 2);
        if len > end - pos - 4 {
            return false;
        }
        if kind == SUPPORTED_VERSIONS_TYPE as usize {
            return len == 2 && read_word(record, pos + 4) == TLS_13 as usize;
        }
        pos = pos + 4 + len;
    }
    false
}

// ---------------------------------------------------------------------------
// Handshake tap
// ---------------------------------------------------------------------------

/// What the server's handshake revealed.
#[derive(Debug, Clone, Copy)]
pub struct HandshakeState {
    pub server_random: [u8; 32],
    /// The key that is laid over the spliced record.
    pub key: [u8; 32],
    pub tls13: bool,
}

impl HandshakeState {
    /// The state for a server random.
    pub fn new(password: &str, server_random: [u8; 32], tls13: bool) -> (r: Self)
        ensures
            r.server_random == server_random,
            r.key@ == splice_key_of(password.spec_bytes(), server_random@),
            r.tls13 == tls13,
    {
        HandshakeState { server_random, key: kdf(password, &server_random), tls13 }
    }
}

/// A payload with a repeating key of 32 bytes laid over it.
pub open spec fn overlaid(payload: Seq<u8>, key: Seq<u8>) -> Seq<u8> {
    Seq::new(payload.len(), |i: int| payload[i] ^ key[i % 32])
}

/// What the tap holds.
#[verifier::ext_equal]
pub struct TapModel {
    /// The record that is arriving, as far as it has arrived.
    pub raw: Seq<u8>,
    /// Record bytes that wait for the TLS client.
    pub ready: Seq<u8>,
    /// The server's random, once its ServerHello was seen.
    pub random: Option<Seq<u8>>,
    /// The server negotiated TLS 1.3.
    pub tls13: bool,
    /// The server's first encrypted record was seen.
    pub auth_checked: bool,
    /// The server proved itself.
    pub authorized: bool,
}

/// The record is a ServerHello with a random.
pub open spec fn is_server_hello(record: Seq<u8>) -> bool {
    record[0] == TLS_HANDSHAKE && record.len() > SERVER_RANDOM_IDX + TLS_RANDOM_SIZE
        && record[TLS_HEADER_SIZE as int] == SERVER_HELLO
}

/// The tag in a record fits its payload and the server's random.
pub open spec fn is_spliced(password: Seq<u8>, random: Seq<u8>, record: Seq<u8>) -> bool {
    record.len() > TLS_HMAC_HEADER_SIZE && tag_of(password, random + record.skip(9))
        == record.subrange(5, 9)
}

/// A spliced record as the TLS client must see it: without its tag, the
/// length put right, and the key taken off the payload.
pub open spec fn unspliced(password: Seq<u8>, random: Seq<u8>, record: Seq<u8>) -> Seq<u8> {
    record.take(3) + net::be_bytes((record.len() - 9) as nat, 2) + overlaid(
        record.skip(9),
        splice_key_of(password, random),
    )
}

/// The tap once a record is complete.
pub open spec fn tapped(password: Seq<u8>, m: TapModel, record: Seq<u8>) -> TapModel {
    if is_server_hello(record) {
        TapModel {
            raw: seq![],
            ready: record,
            random: Some(record.subrange(11, 43)),
            tls13: is_tls13(record),
            ..m
        }
    } else if record[0] == TLS_APPLICATION_DATA && m.random is Some && !m.auth_checked {
        if is_spliced(password, m.random->0, record) {
            TapModel {
                raw: seq![],
                ready: unspliced(password, m.random->0, record),
                auth_checked: true,
                authorized: true,
                ..m
            }
        } else {
            TapModel { raw: seq![], ready: record, auth_checked: true, ..m }
        }
    } else {
        TapModel { raw: seq![], ready: record, ..m }
    }
}

/// How long a record is behind its header.
pub open spec fn body_len(raw: Seq<u8>) -> int {
    word_at(raw, 3)
}

/// How many bytes are known to be missing from a record.
pub open spec fn missing(raw: Seq<u8>) -> int {
    if raw.len() < TLS_HEADER_SIZE {
        TLS_HEADER_SIZE - raw.len()
    } else {
        TLS_HEADER_SIZE + body_len(raw) - raw.len()
    }
}

/// The tap once more bytes of a record have arrived.
pub open spec fn tap_absorbed(password: Seq<u8>, m: TapModel, data: Seq<u8>) -> TapModel {
    let raw = m.raw + data;
    if missing(raw) > 0 {
        TapModel { raw, ..m }
    } else {
        tapped(password, m, raw)
    }
}

/// What a reader's request comes to.
#[derive(Debug)]
pub enum ReadStep {
    /// These bytes, none at the end of the stream.
    Deliver(Vec<u8>),
    /// At most this many bytes are needed from the transport first.
    Fill(usize),
    /// A frame is refused.
    Fail(ShadowTlsError),
}

/// The tap between the transport and a TLS client during the handshake.
pub struct HandshakeTap {
    pub password: String,
    pub pending: Vec<u8>,
    pub pending_pos: usize,
    pub raw: Vec<u8>,
    pub state: Option<HandshakeState>,
    pub auth_checked: bool,
    pub authorized: bool,
}

fn missing_bytes(raw: &[u8]) -> (r: usize)
    requires
        missing(raw@) >= 0,
    ensures
        r == missing(raw@),
{
    if raw.len() < TLS_HEADER_SIZE {
        TLS_HEADER_SIZE - raw.len()
    } else {
        TLS_HEADER_SIZE + read_word(raw, 3) - raw.len()
    }
}

impl View for HandshakeTap {
    type V = TapModel;

    open spec fn view(&self) -> TapModel {
        TapModel {
            raw: self.raw@,
            ready: self.pending@.skip(self.pending_pos as int),
            random: match self.state {
                Some(s) => Some(s.server_random@),
                None => None,
            },
            tls13: self.state is Some && self.state->0.tls13,
            auth_checked: self.auth_checked,
            authorized: self.authorized,
        }
    }
}

impl HandshakeTap {
    /// The values fit together: a server that is authorized is known.
    pub open spec fn wf(self) -> bool {
        &&& self.pending_pos <= self.pending@.len()
        &&& missing(self.raw@) > 0
        &&& self.authorized ==> self.state is Some
        &&& self.state matches Some(s) ==> s.key@ == splice_key_of(
            self.key(),
            s.server_random@,
        )
    }

    /// The bytes of the password.
    pub open spec fn key(self) -> Seq<u8> {
        vstd::utf8::encode_utf8(self.password@)
    }

    /// A tap before the handshake.
    pub fn new(password: String) -> (r: Self)
        ensures
            r.wf(),
            r.password == password,
            r@ == (TapModel {
                raw: seq![],
                ready: seq![],
                random: None,
                tls13: false,
                auth_checked: false,
                authorized: false,
            }),
    {
        let r = HandshakeTap {
            password,
            pending: Vec::new(),
            pending_pos: 0,
            raw: Vec::new(),
            state: None,
            auth_checked: false,
            authorized: false,
        };
        assert(r@.ready =~= seq![]);
        r
    }

    /// What the server's handshake revealed.
    pub fn state(&self) -> (r: Option<HandshakeState>)
        ensures
            r == self.state,
    {
        self.state
    }

    /// Whether the server proved itself.
    pub fn authorized(&self) -> (r: bool)
        ensures
            r == self@.authorized,
    {
        self.authorized
    }

    /// Inspects a complete record and queues what the TLS client must see.
    pub fn process_record(&mut self, record: Vec<u8>)
        requires
            old(self).pending_pos <= old(self).pending@.len(),
            old(self).authorized ==> old(self).state is Some,
            old(self).state matches Some(s) ==> s.key@ == splice_key_of(
                old(self).key(),
                s.server_random@,
            ),
            TLS_HEADER_SIZE <= record@.len() <= 0x1_0004,
        ensures
            final(self).wf(),
            final(self).password == old(self).password,
            final(self)@ == tapped(old(self).key(), old(self)@, record@),
    {
        self.raw = Vec::new();
        let kind: u8 = record[0];
        if kind == TLS_HANDSHAKE && record.len() > SERVER_RANDOM_IDX + TLS_RANDOM_SIZE
            && record[TLS_HEADER_SIZE] == SERVER_HELLO {
            let part = vstd::slice::slice_subrange(record.as_slice(), 11, 43);
            assert(part@.take(32) =~= part@);
            let server_random = bytes::array32(part);
            let tls13 = support_tls13(record.as_slice());
            self.state = Some(
                HandshakeState::new(self.password.as_str(), server_random, tls13),
            );
        } else if kind == TLS_APPLICATION_DATA && !self.auth_checked {
            if let Some(state) = self.state {
                self.auth_checked = true;
                if record.len() > TLS_HMAC_HEADER_SIZE {
                    let data = vstd::slice::slice_subrange(record.as_slice(), 9, record.len());
                    assert(data@ =~= record@.skip(9));
                    let parts = [state.server_random.as_slice(), data];
                    proof {
                        reveal_with_fuel(joined, 3);
                        assert(parts@.drop_last() =~= seq![parts@[0]]);
                        assert(parts@.drop_last().drop_last() =~= seq![]);
                        assert(joined(parts@) =~= state.server_random@ + data@);
                    }
                    let mac = hmac_password(self.password.as_str(), parts.as_slice());
                    let tag = mac4(&mac);
                    let sent = vstd::slice::slice_subrange(record.as_slice(), 5, 9);
                    if text::bytes_eq(tag.as_slice(), sent) {
                        let mut out: Vec<u8> = Vec::new();
                        let head = vstd::slice::slice_subrange(record.as_slice(), 0, 3);
                        assert(head@ =~= record@.take(3));
                        text::append_bytes(&mut out, head);
                        net::push_be(&mut out, data.len() as u128, 2);
                        overlay_into(&mut out, data, &state.key);
                        assert(out@ =~= unspliced(self.key(), state.server_random@, record@));
                        self.authorized = true;
                        self.pending = out;
                        self.pending_pos = 0;
                        assert(self@.ready =~= self.pending@);
                        return;
                    }
                }
            }
        }
        self.pending = record;
        self.pending_pos = 0;
        assert(self@.ready =~= self.pending@);
    }

    /// The transport delivered bytes, at most as many as were asked for.
    pub fn on_data(&mut self, data: &[u8])
        requires
            old(self).wf(),
            old(self)@.ready.len() == 0,
            data@.len() <= missing(old(self)@.raw),
        ensures
            final(self).wf(),
            final(self).password == old(self).password,
            final(self)@ == tap_absorbed(old(self).key(), old(self)@, data@),
    {
        let ghost m = self@;
        let mut record: Vec<u8> = Vec::new();
        text::append_bytes(&mut record, self.raw.as_slice());
        text::append_bytes(&mut record, data);
        assert(record@ =~= m.raw + data@);
        proof {
            lemma_missing(m.raw, data@);
        }
        if missing_bytes(record.as_slice()) > 0 {
            self.raw = record;
            return;
        }
        self.process_record(record);
    }

    /// The TLS client asks for at most `room` bytes.
    pub fn poll_read(&mut self, room: usize) -> (r: ReadStep)
        requires
            old(self).wf(),
        ensures
            final(self).wf(),
            final(self).password == old(self).password,
            tap_polled(old(self)@, room, r, final(self)@),
    {
        let ghost m = self@;
        if self.pending_pos < self.pending.len() {
            let rest: usize = self.pending.len() - self.pending_pos;
            let k: usize = if room < rest { room } else { rest };
            let part = vstd::slice::slice_subrange(
                self.pending.as_slice(),
                self.pending_pos,
                self.pending_pos + k,
            );
            let d = vstd::slice::slice_to_vec(part);
            assert(d@ =~= m.ready.take(k as int));
            self.pending_pos = self.pending_pos + k;
            assert(self@.ready =~= m.ready.skip(k as int));
            return ReadStep::Deliver(d);
        }
        assert(m.ready.len() == 0);
        if room == 0 {
            return ReadStep::Deliver(Vec::new());
        }
        ReadStep::Fill(missing_bytes(self.raw.as_slice()))
    }

    /// The transport reached its end: inside the body of a record an error,
    /// otherwise the end of the stream.
    pub fn on_eof(&self) -> (r: Result<(), ShadowTlsError>)
        requires
            self.wf(),
        ensures
            r == if self@.raw.len() < TLS_HEADER_SIZE {
                Ok::<(), ShadowTlsError>(())
            } else {
                Err::<(), ShadowTlsError>(ShadowTlsError::EofInRecord)
            },
    {
        if self.raw.len() < TLS_HEADER_SIZE {
            Ok(())
        } else {
            Err(ShadowTlsError::EofInRecord)
        }
    }
}

/// A record that got no more bytes than were missing is not too long.
proof fn lemma_missing(raw: Seq<u8>, data: Seq<u8>)
    requires
        missing(raw) >= data.len(),
    ensures
        missing(raw + data) >= 0,
        raw.len() >= TLS_HEADER_SIZE ==> missing(raw + data) == missing(raw) - data.len(),
        raw.len() < TLS_HEADER_SIZE && raw.len() + data.len() < TLS_HEADER_SIZE ==> missing(
            raw + data,
        ) == missing(raw) - data.len(),
        (raw + data).len() >= TLS_HEADER_SIZE ==> (raw + data).len() <= 0x1_0004,
{
    let t = raw + data;
    if raw.len() >= TLS_HEADER_SIZE {
        assert(t[3] == raw[3]);
        assert(t[4] == raw[4]);
    }
}

/// Appends a payload with a repeating key laid over it.
fn overlay_into(out: &mut Vec<u8>, payload: &[u8], key: &[u8; 32])
    ensures
        final(out)@ == old(out)@ + overlaid(payload@, key@),
{
    let mut i: usize = 0;
    while i < payload.len()
        invariant
            i <= payload@.len(),
            out@ == old(out)@ + overlaid(payload@, key@).take(i as int),
        decreases payload@.len() - i,
    {
        let k: usize = i % 32;
        out.push(payload[i] ^ key[k]);
        assert(out@ =~= old(out)@ + overlaid(payload@, key@).take(i + 1));
        i += 1;
    }
    assert(overlaid(payload@, key@).take(i as int) =~= overlaid(payload@, key@));
}

/// The server's first encrypted record as the server sends it.
pub open spec fn spliced_record(password: Seq<u8>, random: Seq<u8>, payload: Seq<u8>) -> Seq<u8> {
    let body = overlaid(payload, splice_key_of(password, random));
    seq![TLS_APPLICATION_DATA, 3u8, 3u8] + net::be_bytes((payload.len() + 4) as nat, 2) + tag_of(
        password,
        random + body,
    ) + body
}

/// The tap turns the record that a genuine server sends into the record that
/// the server meant, and accepts the server.
pub proof fn law_splice_round_trip(password: Seq<u8>, m: TapModel, payload: Seq<u8>)
    requires
        m.random is Some,
        !m.auth_checked,
        payload.len() > 0,
    ensures
        ({
            let n = tapped(password, m, spliced_record(password, m.random->0, payload));
            &&& n.authorized
            &&& n.ready == seq![TLS_APPLICATION_DATA, 3u8, 3u8] + net::be_bytes(payload.len(), 2)
                + payload
        }),
{
    let random = m.random->0;
    let key = splice_key_of(password, random);
    let body = overlaid(payload, key);
    let record = spliced_record(password, random, payload);
    net::lemma_be_bytes_len((payload.len() + 4) as nat, 2);
    assert(record.skip(9) =~= body);
    assert(record.subrange(5, 9) =~= tag_of(password, random + body));
    assert(record.take(3) =~= seq![TLS_APPLICATION_DATA, 3u8, 3u8]);
    assert forall|i: int| 0 <= i < payload.len() implies (payload[i] ^ key[i % 32]) ^ key[i % 32]
        == payload[i] by {
        let a = payload[i];
        let b = key[i % 32];
        assert((a ^ b) ^ b == a) by (bit_vector);
    }
    assert(overlaid(body, key) =~= payload);
}

// ---------------------------------------------------------------------------
// Frames
// ---------------------------------------------------------------------------

/// Which side of the stream a codec is on.
#[derive(Debug, Clone, Copy, PartialEq, Eq, Structural)]
pub enum FrameRole {
    /// Writes frames of the client, reads those of the server.
    Client,
    /// Writes frames of the server, reads those of the client.
    Server,
}

impl FrameRole {
    /// The label of the frames that this side writes.
    pub open spec fn own_label(self) -> Seq<u8> {
        match self {
            FrameRole::Client => seq![67u8],
            FrameRole::Server => seq![83u8],
        }
    }

    /// The label of the frames that this side reads.
    pub open spec fn peer_label(self) -> Seq<u8> {
        match self {
            FrameRole::Client => seq![83u8],
            FrameRole::Server => seq![67u8],
        }
    }

    /// The label of the frames that this side writes.
    pub fn write_label(self) -> (r: Vec<u8>)
        ensures
            r@ == self.own_label(),
    {
        match self {
            FrameRole::Client => vec![67u8],
            FrameRole::Server => vec![83u8],
        }
    }

    /// The label of the frames that this side reads.
    pub fn read_label(self) -> (r: Vec<u8>)
        ensures
            r@ == self.peer_label(),
    {
        match self {
            FrameRole::Client => vec![83u8],
            FrameRole::Server => vec![67u8],
        }
    }
}

/// A frame on the wire.
pub open spec fn frame_bytes(tag: Seq<u8>, data: Seq<u8>) -> Seq<u8> {
    seq![TLS_APPLICATION_DATA, 3u8, 3u8] + net::be_bytes((data.len() + 4) as nat, 2) + tag + data
}

/// How much of a payload goes into its first frame.
pub open spec fn first_share(payload: Seq<u8>) -> int {
    if payload.len() < MAX_FRAME_PAYLOAD {
        payload.len() as int
    } else {
        MAX_FRAME_PAYLOAD as int
    }
}

/// A payload in frames. Each tag covers everything that was fed before,
/// payloads and tags alike.
pub open spec fn frames_of(key: Seq<u8>, fed: Seq<u8>, payload: Seq<u8>) -> Seq<u8>
    decreases payload.len(),
{
    if payload.len() == 0 {
        seq![]
    } else {
        let n = first_share(payload);
        let part = payload.take(n);
        let tag = tag_of(key, fed + part);
        frame_bytes(tag, part) + frames_of(key, fed + part + tag, payload.skip(n))
    }
}

/// What has been fed once a payload was put into frames.
pub open spec fn fed_after(key: Seq<u8>, fed: Seq<u8>, payload: Seq<u8>) -> Seq<u8>
    decreases payload.len(),
{
    if payload.len() == 0 {
        fed
    } else {
        let n = first_share(payload);
        let part = payload.take(n);
        fed_after(key, fed + part + tag_of(key, fed + part), payload.skip(n))
    }
}

/// What a frame codec holds.
#[verifier::ext_equal]
pub struct IoModel {
    /// The frame that is arriving, as far as it has arrived.
    pub raw: Seq<u8>,
    /// Payload that waits for the reader.
    pub ready: Seq<u8>,
    /// What the tags of incoming frames cover so far.
    pub read_fed: Seq<u8>,
    /// What the tags of control frames cover before their payload, as long as
    /// such frames are skipped.
    pub ignored: Option<Seq<u8>>,
    /// Nothing more will be delivered.
    pub ended: bool,
    /// What the tags of outgoing frames cover so far.
    pub write_fed: Seq<u8>,
    /// Bytes that wait for the transport.
    pub pending: Seq<u8>,
}

/// The header is complete and its length does not cover a tag.
pub open spec fn is_short(raw: Seq<u8>) -> bool {
    raw.len() >= TLS_HEADER_SIZE && body_len(raw) < HMAC_SIZE
}

/// The codec once a frame is complete, and the error that the frame is.
pub open spec fn received(key: Seq<u8>, m: IoModel, raw: Seq<u8>) -> (IoModel, Option<ShadowTlsError>) {
    let e = IoModel { raw: seq![], ..m };
    let data = raw.skip(9);
    let tag = raw.subrange(5, 9);
    if raw[0] == TLS_ALERT {
        (IoModel { ended: true, ..e }, None)
    } else if raw[0] != TLS_APPLICATION_DATA || raw[1] != 3 || raw[2] != 3 {
        (e, Some(ShadowTlsError::UnexpectedType(raw[0])))
    } else if m.ignored is Some && tag_of(key, m.ignored->0 + data) == tag {
        (e, None)
    } else {
        let expected = tag_of(key, m.read_fed + data);
        let n = IoModel { ignored: None, read_fed: m.read_fed + data + expected, ..e };
        if expected == tag {
            (IoModel { ready: data, ..n }, None)
        } else {
            (n, Some(ShadowTlsError::TagMismatch))
        }
    }
}

/// The codec once more bytes of a frame have arrived, and the error that a
/// complete frame is.
pub open spec fn io_absorbed(key: Seq<u8>, m: IoModel, data: Seq<u8>) -> (IoModel, Option<
    ShadowTlsError,
>) {
    let raw = m.raw + data;
    if is_short(raw) || missing(raw) > 0 {
        (IoModel { raw, ..m }, None)
    } else {
        received(key, m, raw)
    }
}

/// The codec takes bytes of a frame.
pub open spec fn is_filling(m: IoModel) -> bool {
    m.ready.len() == 0 && !m.ended && !is_short(m.raw)
}

/// What a writer's request comes to.
#[derive(Debug)]
pub enum WriteStep {
    /// This many bytes are written.
    Done(usize),
    /// The pending bytes must reach the transport first.
    Drain,
}

/// The frame codec between a user and a transport.
///
/// The transport itself is not part of it: `poll_read` and `poll_write` say
/// what is needed from the transport, and the `on_` functions take what the
/// transport did.
pub struct ShadowTlsIo {
    pub payload: Vec<u8>,
    pub payload_pos: usize,
    pub raw: Vec<u8>,
    pub write_hmac: crypto::RollingMac,
    pub read_hmac: crypto::RollingMac,
    pub ignore_hmac: Option<crypto::RollingMac>,
    pub ignore_prefix: [u8; 32],
    pub password: String,
    pub write_pending: Vec<u8>,
    pub write_pos: usize,
    pub saw_alert: bool,
}

impl View for ShadowTlsIo {
    type V = IoModel;

    open spec fn view(&self) -> IoModel {
        IoModel {
            raw: self.raw@,
            ready: self.payload@.skip(self.payload_pos as int),
            read_fed: crypto::mac_fed(self.read_hmac),
            ignored: match self.ignore_hmac {
                Some(mac) => Some(crypto::mac_fed(mac)),
                None => None,
            },
            ended: self.saw_alert,
            write_fed: crypto::mac_fed(self.write_hmac),
            pending: self.write_pending@.skip(self.write_pos as int),
        }
    }
}

impl ShadowTlsIo {
    /// The bytes of the password.
    pub open spec fn key(self) -> Seq<u8> {
        vstd::utf8::encode_utf8(self.password@)
    }

    /// The values fit together.
    pub open spec fn wf(self) -> bool {
        &&& self.payload_pos <= self.payload@.len()
        &&& self.write_pos <= self.write_pending@.len()
        &&& is_short(self.raw@) || missing(self.raw@) > 0
        &&& crypto::mac_key(self.write_hmac) == self.key()
        &&& crypto::mac_key(self.read_hmac) == self.key()
        &&& self.ignore_hmac matches Some(mac) ==> crypto::mac_key(mac) == self.key()
            && crypto::mac_fed(mac) == self.ignore_prefix@
    }

    /// A codec at its start.
    pub fn new(password: String, server_random: &[u8; 32], role: FrameRole) -> (r: Self)
        ensures
            r.wf(),
            r.password == password,
            r@ == fresh_io(server_random@, role),
    {
        let own = role.write_label();
        let peer = role.read_label();
        let write_parts = [server_random.as_slice(), own.as_slice()];
        let read_parts = [server_random.as_slice(), peer.as_slice()];
        let ignore_parts = [server_random.as_slice()];
        proof {
            reveal_with_fuel(joined, 3);
            assert(write_parts@.drop_last() =~= seq![write_parts@[0]]);
            assert(write_parts@.drop_last().drop_last() =~= seq![]);
            assert(joined(write_parts@) =~= server_random@ + own@);
            assert(read_parts@.drop_last() =~= seq![read_parts@[0]]);
            assert(read_parts@.drop_last().drop_last() =~= seq![]);
            assert(joined(read_parts@) =~= server_random@ + peer@);
            assert(ignore_parts@.drop_last() =~= seq![]);
            assert(joined(ignore_parts@) =~= server_random@);
        }
        let write_hmac = hmac_password(password.as_str(), write_parts.as_slice());
        let read_hmac = hmac_password(password.as_str(), read_parts.as_slice());
        let ignore_hmac = hmac_password(password.as_str(), ignore_parts.as_slice());
        let r = ShadowTlsIo {
            payload: Vec::new(),
            payload_pos: 0,
            raw: Vec::new(),
            write_hmac,
            read_hmac,
            ignore_hmac: Some(ignore_hmac),
            ignore_prefix: *server_random,
            password,
            write_pending: Vec::new(),
            write_pos: 0,
            saw_alert: false,
        };
        assert(r@.ready =~= seq![]);
        assert(r@.pending =~= seq![]);
        r
    }

    /// The tag that a control frame with this payload would have.
    fn control_tag(&self, data: &[u8]) -> (r: Vec<u8>)
        ensures
            r@ == tag_of(self.key(), self.ignore_prefix@ + data@),
            r@.len() == 4,
    {
        let parts = [self.ignore_prefix.as_slice(), data];
        proof {
            reveal_with_fuel(joined, 3);
            assert(parts@.drop_last() =~= seq![parts@[0]]);
            assert(parts@.drop_last().drop_last() =~= seq![]);
            assert(joined(parts@) =~= self.ignore_prefix@ + data@);
        }
        let mac = hmac_password(self.password.as_str(), parts.as_slice());
        mac4(&mac)
    }

    fn receive(&mut self, record: Vec<u8>) -> (r: Result<(), ShadowTlsError>)
        requires
            old(self).wf(),
            old(self)@.ready.len() == 0,
            record@.len() >= TLS_HMAC_HEADER_SIZE,
        ensures
            final(self).wf(),
            final(self).password == old(self).password,
            ({
                let after = received(old(self).key(), old(self)@, record@);
                &&& final(self)@ == after.0
                &&& match after.1 {
                    None => r == Ok::<(), ShadowTlsError>(()),
                    Some(e) => r == Err::<(), ShadowTlsError>(e),
                }
            }),
    {
        let ghost m = self@;
        self.raw = Vec::new();
        self.payload = Vec::new();
        self.payload_pos = 0;
        assert(m.ready =~= seq![]);
        assert(self@.ready =~= seq![]);
        let kind: u8 = record[0];
        if kind == TLS_ALERT {
            self.saw_alert = true;
            return Ok(());
        }
        if kind != TLS_APPLICATION_DATA || record[1] != 3 || record[2] != 3 {
            return Err(ShadowTlsError::UnexpectedType(kind));
        }
        let tag = vstd::slice::slice_subrange(record.as_slice(), 5, 9);
        let data = vstd::slice::slice_subrange(record.as_slice(), 9, record.len());
        assert(data@ =~= record@.skip(9));
        if self.ignore_hmac.is_some() {
            let control = self.control_tag(data);
            if text::bytes_eq(control.as_slice(), tag) {
                return Ok(());
            }
            self.ignore_hmac = None;
        }
        crypto::mac_update(&mut self.read_hmac, data);
        let expected = mac4(&self.read_hmac);
        crypto::mac_update(&mut self.read_hmac, expected.as_slice());
        if !text::bytes_eq(expected.as_slice(), tag) {
            return Err(ShadowTlsError::TagMismatch);
        }
        self.payload = vstd::slice::slice_to_vec(data);
        self.payload_pos = 0;
        assert(self@.ready =~= self.payload@);
        Ok(())
    }

    /// The transport delivered bytes, at most as many as were asked for.
    pub fn on_data(&mut self, data: &[u8]) -> (r: Result<(), ShadowTlsError>)
        requires
            old(self).wf(),
            is_filling(old(self)@),
            data@.len() <= missing(old(self)@.raw),
        ensures
            final(self).wf(),
            final(self).password == old(self).password,
            ({
                let after = io_absorbed(old(self).key(), old(self)@, data@);
                &&& final(self)@ == after.0
                &&& match after.1 {
                    None => r == Ok::<(), ShadowTlsError>(()),
                    Some(e) => r == Err::<(), ShadowTlsError>(e),
                }
            }),
    {
        let ghost m = self@;
        let mut record: Vec<u8> = Vec::new();
        text::append_bytes(&mut record, self.raw.as_slice());
        text::append_bytes(&mut record, data);
        assert(record@ =~= m.raw + data@);
        proof {
            lemma_missing(m.raw, data@);
        }
        if record.len() >= TLS_HEADER_SIZE && read_word(record.as_slice(), 3) < HMAC_SIZE {
            self.raw = record;
            return Ok(());
        }
        if missing_bytes(record.as_slice()) > 0 {
            self.raw = record;
            return Ok(());
        }
        self.receive(record)
    }

    /// A reader asks for at most `room` bytes.
    pub fn poll_read(&mut self, room: usize) -> (r: ReadStep)
        requires
            old(self).wf(),
        ensures
            final(self).wf(),
            final(self).password == old(self).password,
            polled(old(self)@, room, r, final(self)@),
    {
        let ghost m = self@;
        if self.payload_pos < self.payload.len() {
            let rest: usize = self.payload.len() - self.payload_pos;
            let k: usize = if room < rest { room } else { rest };
            let part = vstd::slice::slice_subrange(
                self.payload.as_slice(),
                self.payload_pos,
                self.payload_pos + k,
            );
            let d = vstd::slice::slice_to_vec(part);
            assert(d@ =~= m.ready.take(k as int));
            self.payload_pos = self.payload_pos + k;
            assert(self@.ready =~= m.ready.skip(k as int));
            return ReadStep::Deliver(d);
        }
        assert(m.ready.len() == 0);
        if room == 0 || self.saw_alert {
            return ReadStep::Deliver(Vec::new());
        }
        if self.raw.len() >= TLS_HEADER_SIZE && read_word(self.raw.as_slice(), 3) < HMAC_SIZE {
            return ReadStep::Fail(ShadowTlsError::ShortFrame);
        }
        ReadStep::Fill(missing_bytes(self.raw.as_slice()))
    }

    /// The transport reached its end: inside the body of a frame an error,
    /// otherwise the end of the stream.
    pub fn on_eof(&mut self) -> (r: Result<(), ShadowTlsError>)
        requires
            old(self).wf(),
            is_filling(old(self)@),
        ensures
            final(self).wf(),
            final(self).password == old(self).password,
            old(self)@.raw.len() < TLS_HEADER_SIZE ==> r == Ok::<(), ShadowTlsError>(())
                && final(self)@ == (IoModel { ended: true, ..old(self)@ }),
            old(self)@.raw.len() >= TLS_HEADER_SIZE ==> r == Err::<(), ShadowTlsError>(
                ShadowTlsError::EofInFrame,
            ) && final(self)@ == old(self)@,
    {
        if self.raw.len() < TLS_HEADER_SIZE {
            self.saw_alert = true;
            Ok(())
        } else {
            Err(ShadowTlsError::EofInFrame)
        }
    }

    /// The bytes that wait for the transport.
    pub fn pending(&self) -> (r: &[u8])
        requires
            self.wf(),
        ensures
            r@ == self@.pending,
    {
        let r = vstd::slice::slice_subrange(
            self.write_pending.as_slice(),
            self.write_pos,
            self.write_pending.len(),
        );
        assert(r@ =~= self@.pending);
        r
    }

    /// Puts a payload into as many frames as it takes, in place of what was
    /// pending.
    pub fn queue_frame(&mut self, payload: &[u8])
        requires
            old(self).wf(),
        ensures
            final(self).wf(),
            final(self).password == old(self).password,
            final(self)@ == (IoModel {
                pending: frames_of(old(self).key(), old(self)@.write_fed, payload@),
                write_fed: fed_after(old(self).key(), old(self)@.write_fed, payload@),
                ..old(self)@
            }),
    {
        let ghost key = self.key();
        let ghost fed0 = self@.write_fed;
        self.write_pending = Vec::new();
        self.write_pos = 0;
        let mut i: usize = 0;
        assert(payload@.skip(0) =~= payload@);
        assert(self.write_pending@ + frames_of(key, fed0, payload@) =~= frames_of(
            key,
            fed0,
            payload@,
        ));
        while i < payload.len()
            invariant
                i <= payload@.len(),
                self.wf(),
                self.password == old(self).password,
                key == self.key(),
                self.write_pos == 0,
                self.raw == old(self).raw,
                self.payload == old(self).payload,
                self.payload_pos == old(self).payload_pos,
                self.read_hmac == old(self).read_hmac,
                self.ignore_hmac == old(self).ignore_hmac,
                self.saw_alert == old(self).saw_alert,
                self.write_pending@ + frames_of(
                    key,
                    crypto::mac_fed(self.write_hmac),
                    payload@.skip(i as int),
                ) == frames_of(key, fed0, payload@),
                fed_after(key, crypto::mac_fed(self.write_hmac), payload@.skip(i as int))
                    == fed_after(key, fed0, payload@),
            decreases payload@.len() - i,
        {
            let rest: usize = payload.len() - i;
            let n: usize = if rest < MAX_FRAME_PAYLOAD { rest } else { MAX_FRAME_PAYLOAD };
            let part = vstd::slice::slice_subrange(payload, i, i + n);
            let ghost fed = crypto::mac_fed(self.write_hmac);
            let ghost before = self.write_pending@;
            let ghost tail = payload@.skip(i as int);
            assert(part@ =~= tail.take(n as int));
            assert(tail.skip(n as int) =~= payload@.skip(i + n));
            crypto::mac_update(&mut self.write_hmac, part);
            let tag = mac4(&self.write_hmac);
            crypto::mac_update(&mut self.write_hmac, tag.as_slice());
            self.write_pending.push(TLS_APPLICATION_DATA);
            self.write_pending.push(3);
            self.write_pending.push(3);
            net::push_be(&mut self.write_pending, (n + HMAC_SIZE) as u128, 2);
            text::append_bytes(&mut self.write_pending, tag.as_slice());
            text::append_bytes(&mut self.write_pending, part);
            proof {
                assert(self.write_pending@ =~= before + frame_bytes(tag@, part@));
                let after = frames_of(key, fed + part@ + tag@, tail.skip(n as int));
                assert(before + (frame_bytes(tag@, part@) + after) =~= (before + frame_bytes(
                    tag@,
                    part@,
                )) + after);
            }
            i = i + n;
        }
        proof {
            assert(payload@.skip(i as int) =~= seq![]);
            assert(self.write_pending@ + seq![] =~= self.write_pending@);
            assert(self@.pending =~= self.write_pending@);
        }
    }

    /// A writer offers bytes. Frames that are still on their way go first.
    pub fn poll_write(&mut self, data: &[u8]) -> (r: WriteStep)
        requires
            old(self).wf(),
        ensures
            final(self).wf(),
            final(self).password == old(self).password,
            offered(old(self).key(), old(self)@, data@, r, final(self)@),
    {
        if data.len() == 0 {
            return WriteStep::Done(0);
        }
        if self.write_pos == self.write_pending.len() {
            self.queue_frame(data);
        }
        WriteStep::Drain
    }

    /// The transport took `n` of the pending bytes, for a write or for a
    /// flush. Taking none is an error that leaves them.
    pub fn on_written(&mut self, n: usize, flushing: bool) -> (r: Result<(), ShadowTlsError>)
        requires
            old(self).wf(),
            n <= old(self)@.pending.len(),
        ensures
            final(self).wf(),
            final(self).password == old(self).password,
            n == 0 ==> r == Err::<(), ShadowTlsError>(
                if flushing {
                    ShadowTlsError::FlushZero
                } else {
                    ShadowTlsError::WriteZero
                },
            ) && final(self)@ == old(self)@,
            n > 0 ==> r == Ok::<(), ShadowTlsError>(()) && final(self)@ == (IoModel {
                pending: old(self)@.pending.skip(n as int),
                ..old(self)@
            }),
    {
        if n == 0 {
            return Err(
                if flushing {
                    ShadowTlsError::FlushZero
                } else {
                    ShadowTlsError::WriteZero
                },
            );
        }
        assert(self.write_pending.len() == self.write_pending@.len());
        self.write_pos = self.write_pos + n;
        assert(self@.pending =~= old(self)@.pending.skip(n as int));
        Ok(())
    }

    /// A write is over once nothing is pending; all of it counts as written.
    pub fn finish_write(&mut self, data: &[u8]) -> (r: usize)
        requires
            old(self).wf(),
            old(self)@.pending.len() == 0,
        ensures
            final(self).wf(),
            final(self).password == old(self).password,
            final(self)@ == old(self)@,
            r == data@.len(),
    {
        assert(old(self)@.pending =~= seq![]);
        self.write_pending = Vec::new();
        self.write_pos = 0;
        assert(self@.pending =~= seq![]);
        data.len()
    }
}

/// Why there is no relay to a server.
#[derive(Debug, Clone, Copy, PartialEq, Eq, Structural)]
pub enum RelayError {
    /// The site whose handshake is shown has no name that TLS accepts.
    BadHost,
    TimedOut,
    HandshakeFailed,
    /// The server did not prove that it knows the password.
    NotAuthorized,
}

impl RelayError {
    /// The text that is shown for the error; `addr` is the server's address
    /// and `tls_host` the site whose handshake is shown.
    pub open spec fn text(self, addr: Seq<char>, tls_host: Seq<char>) -> Seq<char> {
        match self {
            RelayError::BadHost => "shadow-tls: invalid TLS host '"@ + tls_host + "'"@,
            RelayError::TimedOut => "shadow-tls handshake with "@ + addr + " timed out"@,
            RelayError::HandshakeFailed => "shadow-tls TLS handshake with "@ + addr + " failed"@,
            RelayError::NotAuthorized => "shadow-tls authentication failed (server "@ + addr
                + " rejected the session id signature)"@,
        }
    }

    /// The text that is shown for the error.
    pub fn message(self, addr: &str, tls_host: &str) -> (r: String)
        ensures
            r@ == self.text(addr@, tls_host@),
    {
        let mut out: Vec<char> = Vec::new();
        match self {
            RelayError::BadHost => {
                text::append_str(&mut out, "shadow-tls: invalid TLS host '");
                text::append_str(&mut out, tls_host);
                text::append_str(&mut out, "'");
            },
            RelayError::TimedOut => {
                text::append_str(&mut out, "shadow-tls handshake with ");
                text::append_str(&mut out, addr);
                text::append_str(&mut out, " timed out");
            },
            RelayError::HandshakeFailed => {
                text::append_str(&mut out, "shadow-tls TLS handshake with ");
                text::append_str(&mut out, addr);
                text::append_str(&mut out, " failed");
            },
            RelayError::NotAuthorized => {
                text::append_str(&mut out, "shadow-tls authentication failed (server ");
                text::append_str(&mut out, addr);
                text::append_str(&mut out, " rejected the session id signature)");
            },
        }
        assert(out@ =~= self.text(addr@, tls_host@));
        text::string_of(out.as_slice())
    }
}

impl HandshakeTap {
    /// The frames that follow a handshake with a server that was authorized;
    /// another server gets none.
    pub fn into_relay(self) -> (r: Result<ShadowTlsIo, RelayError>)
        requires
            self.wf(),
        ensures
            goes_on_as(self, r),
    {
        if !self.authorized {
            return Err(RelayError::NotAuthorized);
        }
        match self.state {
            Some(s) => Ok(ShadowTlsIo::new(self.password, &s.server_random, FrameRole::Client)),
            None => Err(RelayError::NotAuthorized),
        }
    }
}

// ---------------------------------------------------------------------------
// The server
// ---------------------------------------------------------------------------

/// A Shadowsocks server behind shadow-tls.
pub struct ShadowTlsOutbound {
    /// The Shadowsocks server.
    pub inner: SsOutbound,
    /// The site whose handshake is shown.
    pub tls_host: String,
    pub tls_password: String,
    pub skip_cert_verify: bool,
    /// Connections are opened before they are needed.
    pub warm_pool: bool,
}

/// The server that a configuration describes, or what is wrong with it.
pub open spec fn is_outbound_for(
    r: Result<ShadowTlsOutbound, SsError>,
    server: &str,
    port: u16,
    cipher: &str,
    password: &str,
    tls: (&str, &str, bool),
    warm_pool: bool,
) -> bool {
    match ss::config_error(cipher@, password@) {
        None => r matches Ok(o) && o.inner.is_for(server@, port, cipher@, password@)
            && o.tls_host@ == tls.0@ && o.tls_password@ == tls.1@ && o.skip_cert_verify == tls.2
            && o.warm_pool == warm_pool,
        Some(t) => r matches Err(e) && e.text() == t,
    }
}

impl ShadowTlsOutbound {
    /// A server whose connections are opened before they are needed.
    pub fn new(
        server: &str,
        port: u16,
        cipher: &str,
        password: &str,
        tls_host: &str,
        tls_password: &str,
        tls_skip_verify: bool,
    ) -> (r: Result<Self, SsError>)
        ensures
            is_outbound_for(
                r,
                server,
                port,
                cipher,
                password,
                (tls_host, tls_password, tls_skip_verify),
                true,
            ),
    {
        Self::build(server, port, cipher, password, (tls_host, tls_password, tls_skip_verify), true)
    }

    /// A server that is connected to only when asked.
    pub fn new_unwarmed(
        server: &str,
        port: u16,
        cipher: &str,
        password: &str,
        tls_host: &str,
        tls_password: &str,
        tls_skip_verify: bool,
    ) -> (r: Result<Self, SsError>)
        ensures
            is_outbound_for(
                r,
                server,
                port,
                cipher,
                password,
                (tls_host, tls_password, tls_skip_verify),
                false,
            ),
    {
        Self::build(server, port, cipher, password, (tls_host, tls_password, tls_skip_verify), false)
    }

    fn build(
        server: &str,
        port: u16,
        cipher: &str,
        password: &str,
        tls: (&str, &str, bool),
        warm_pool: bool,
    ) -> (r: Result<Self, SsError>)
        ensures
            is_outbound_for(r, server, port, cipher, password, tls, warm_pool),
    {
        match SsOutbound::new(server, port, cipher, password) {
            Ok(inner) => Ok(
                ShadowTlsOutbound {
                    inner,
                    tls_host: text::string_of(text::chars_of(tls.0).as_slice()),
                    tls_password: text::string_of(text::chars_of(tls.1).as_slice()),
                    skip_cert_verify: tls.2,
                    warm_pool,
                },
            ),
            Err(e) => Err(e),
        }
    }

    /// Where a stream is to go: the target goes out as a name, whatever it is.
    pub fn target(&self, host: &str, port: u16) -> (r: SsTarget)
        ensures
            r matches SsTarget::DomainNameAddress(h, p) && h@ == host@ && p == port,
    {
        SsTarget::DomainNameAddress(text::string_of(text::chars_of(host).as_slice()), port)
    }
}

// ---------------------------------------------------------------------------
// Laws of frames
// ---------------------------------------------------------------------------

/// The parts of a frame.
proof fn lemma_frame(tag: Seq<u8>, data: Seq<u8>, rest: Seq<u8>)
    requires
        tag.len() == 4,
        data.len() <= MAX_FRAME_PAYLOAD,
    ensures
        ({
            let frame = frame_bytes(tag, data);
            let wire = frame + rest;
            &&& frame.len() == data.len() + 9
            &&& body_len(wire) == data.len() + 4
            &&& body_len(frame) == data.len() + 4
            &&& frame.skip(9) == data
            &&& frame.subrange(5, 9) == tag
            &&& wire.take(body_len(wire) + 5) == frame
            &&& wire.skip(body_len(wire) + 5) == rest
        }),
{
    let n = (data.len() + 4) as nat;
    let frame = frame_bytes(tag, data);
    let wire = frame + rest;
    net::lemma_be_bytes_len(n, 2);
    reveal_with_fuel(net::be_bytes, 3);
    let b = net::be_bytes(n, 2);
    assert(b[0] == (n / 256 % 256) as u8);
    assert(b[1] == (n % 256) as u8);
    assert(frame[3] == b[0]);
    assert(frame[4] == b[1]);
    assert(wire[3] == b[0]);
    assert(wire[4] == b[1]);
    assert(frame.skip(9) =~= data);
    assert(frame.subrange(5, 9) =~= tag);
    assert(wire.take(frame.len() as int) =~= frame);
    assert(wire.skip(frame.len() as int) =~= rest);
}

/// A frame with these bytes has the tag that a control frame with them has,
/// and control frames are still skipped.
pub open spec fn is_taken_for_control(key: Seq<u8>, m: IoModel, data: Seq<u8>) -> bool {
    m.ignored is Some && tag_of(key, m.ignored->0 + data) == tag_of(key, m.read_fed + data)
}

/// The codec delivers a frame of its peer, and then expects what the peer's
/// tags cover next, unless the frame is taken for a control frame.
pub proof fn law_frame_is_delivered(key: Seq<u8>, m: IoModel, data: Seq<u8>)
    requires
        is_filling(m),
        m.raw.len() == 0,
        data.len() <= MAX_FRAME_PAYLOAD,
        !is_taken_for_control(key, m, data),
    ensures
        ({
            let tag = tag_of(key, m.read_fed + data);
            received(key, m, frame_bytes(tag, data)) == (
                IoModel {
                    ready: data,
                    read_fed: m.read_fed + data + tag,
                    ignored: None,
                    raw: seq![],
                    ..m
                },
                None::<ShadowTlsError>,
            )
        }),
{
    let tag = tag_of(key, m.read_fed + data);
    lemma_frame(tag, data, seq![]);
}

/// A codec that is fed with bytes and read out whenever it has payload: the
/// codec afterwards, all that was delivered, and the error that ended it.
/// Where the codec takes no more bytes the rest is left.
pub open spec fn read_all(key: Seq<u8>, m: IoModel, wire: Seq<u8>) -> (
    IoModel,
    Seq<u8>,
    Option<ShadowTlsError>,
)
    decreases wire.len(), m.ready.len(),
{
    let n = missing(m.raw);
    if m.ready.len() > 0 {
        let (after, more, e) = read_all(key, IoModel { ready: seq![], ..m }, wire);
        (after, m.ready + more, e)
    } else if wire.len() == 0 || !is_filling(m) || n <= 0 {
        (m, seq![], None)
    } else {
        let k = if n < wire.len() { n } else { wire.len() as int };
        let (next, e) = io_absorbed(key, m, wire.take(k));
        if e is Some {
            (next, seq![], e)
        } else {
            read_all(key, next, wire.skip(k))
        }
    }
}

/// A frame that got fewer bytes than were missing still lacks the others.
proof fn lemma_still_missing(raw: Seq<u8>, a: Seq<u8>)
    requires
        !is_short(raw),
        a.len() < missing(raw),
    ensures
        !is_short(raw + a),
        missing(raw + a) == missing(raw) - a.len(),
{
    let t = raw + a;
    if raw.len() >= TLS_HEADER_SIZE {
        assert(t[3] == raw[3]);
        assert(t[4] == raw[4]);
    }
}

/// A split inside the bytes that are missing.
proof fn lemma_split_inside(key: Seq<u8>, m: IoModel, a: Seq<u8>, b: Seq<u8>)
    requires
        is_filling(m),
        0 < a.len() < missing(m.raw),
    ensures
        io_absorbed(key, m, a).1 is None,
        read_all(key, m, a) == (
            io_absorbed(key, m, a).0,
            Seq::<u8>::empty(),
            None::<ShadowTlsError>,
        ),
        read_all(key, m, a + b) == read_all(key, io_absorbed(key, m, a).0, b),
{
    let n = missing(m.raw);
    lemma_still_missing(m.raw, a);
    let at = io_absorbed(key, m, a).0;
    assert(at == IoModel { raw: m.raw + a, ..m });
    assert(is_filling(at));
    assert(a.take(a.len() as int) =~= a);
    assert(a.skip(a.len() as int) =~= seq![]);
    assert(read_all(key, at, seq![]) == (at, Seq::<u8>::empty(), None::<ShadowTlsError>));
    assert(read_all(key, m, a) == read_all(key, at, seq![]));
    if b.len() == 0 {
        assert(a + b =~= a);
        assert(b =~= seq![]);
    } else {
        let rest = n - a.len();
        let k = if rest < b.len() { rest } else { b.len() as int };
        assert((a + b).take(a.len() + k) =~= a + b.take(k));
        assert((a + b).skip(a.len() + k) =~= b.skip(k));
        assert((m.raw + a) + b.take(k) =~= m.raw + (a + b.take(k)));
        assert(io_absorbed(key, at, b.take(k)) == io_absorbed(key, m, a + b.take(k)));
    }
}

/// How a stream of bytes is split on arrival does not matter, wherever it is
/// split.
pub proof fn law_splits_do_not_matter(key: Seq<u8>, m: IoModel, a: Seq<u8>, b: Seq<u8>)
    ensures
        ({
            let first = read_all(key, m, a);
            let second = read_all(key, first.0, b);
            if first.2 is Some {
                read_all(key, m, a + b) == first
            } else {
                read_all(key, m, a + b) == (second.0, first.1 + second.1, second.2)
            }
        }),
    decreases a.len(), m.ready.len(),
{
    let n = missing(m.raw);
    let first = read_all(key, m, a);
    let second = read_all(key, first.0, b);
    assert(seq![] + second.1 =~= second.1);
    if m.ready.len() > 0 {
        law_splits_do_not_matter(key, IoModel { ready: seq![], ..m }, a, b);
        let part = read_all(key, IoModel { ready: seq![], ..m }, a);
        assert((m.ready + part.1) + second.1 =~= m.ready + (part.1 + second.1));
    } else if a.len() == 0 {
        assert(a + b =~= b);
    } else if !is_filling(m) || n <= 0 {
    } else if a.len() < n {
        lemma_split_inside(key, m, a, b);
    } else {
        assert((a + b).take(n) =~= a.take(n));
        assert((a + b).skip(n) =~= a.skip(n) + b);
        if io_absorbed(key, m, a.take(n)).1 is None {
            law_splits_do_not_matter(key, io_absorbed(key, m, a.take(n)).0, a.skip(n), b);
        }
    }
}

/// What one side writes, however long it is and in however many frames, is
/// what the other side delivers, byte for byte and in order; the codec then
/// expects what the writer's tags cover next. While control frames are still
/// skipped, the first frame must not have the tag of one.
pub proof fn law_stream_round_trip(key: Seq<u8>, m: IoModel, payload: Seq<u8>)
    requires
        is_filling(m),
        m.raw.len() == 0,
        !is_taken_for_control(key, m, payload.take(first_share(payload))),
    ensures
        read_all(key, m, frames_of(key, m.read_fed, payload)) == (
            IoModel {
                read_fed: fed_after(key, m.read_fed, payload),
                ignored: if payload.len() == 0 {
                    m.ignored
                } else {
                    None
                },
                ..m
            },
            payload,
            None::<ShadowTlsError>,
        ),
    decreases payload.len(),
{
    if payload.len() == 0 {
        assert(payload =~= seq![]);
    } else {
        let n = first_share(payload);
        let part = payload.take(n);
        let tag = tag_of(key, m.read_fed + part);
        let rest = frames_of(key, m.read_fed + part + tag, payload.skip(n));
        let next = IoModel { read_fed: m.read_fed + part + tag, ignored: None, ..m };
        law_stream_round_trip(key, next, payload.skip(n));
        lemma_frame_is_read(key, m, part);
        law_splits_do_not_matter(key, m, frame_bytes(tag, part), rest);
        assert(part + payload.skip(n) =~= payload);
    }
}

/// A whole frame delivers its payload.
proof fn lemma_frame_is_read(key: Seq<u8>, m: IoModel, data: Seq<u8>)
    requires
        is_filling(m),
        m.raw.len() == 0,
        !is_taken_for_control(key, m, data),
        0 < data.len() <= MAX_FRAME_PAYLOAD,
    ensures
        ({
            let tag = tag_of(key, m.read_fed + data);
            read_all(key, m, frame_bytes(tag, data)) == (
                IoModel { read_fed: m.read_fed + data + tag, ignored: None, ..m },
                data,
                None::<ShadowTlsError>,
            )
        }),
{
    let tag = tag_of(key, m.read_fed + data);
    let frame = frame_bytes(tag, data);
    lemma_frame(tag, data, seq![]);
    law_frame_is_delivered(key, m, data);
    assert(m.raw =~= seq![]);
    assert(m.ready =~= seq![]);
    let head = frame.take(5);
    let body = frame.skip(5);
    let at = IoModel { raw: head, ..m };
    assert(m.raw + head =~= head);
    assert(head[3] == frame[3]);
    assert(head[4] == frame[4]);
    assert(io_absorbed(key, m, head) == (at, None::<ShadowTlsError>));
    assert(missing(head) == body.len());
    assert(head + body =~= frame);
    assert(missing(frame) == 0);
    assert(body.take(body.len() as int) =~= body);
    assert(body.skip(body.len() as int) =~= seq![]);
    let got = received(key, at, frame).0;
    let next = IoModel { read_fed: m.read_fed + data + tag, ignored: None, ..m };
    assert(received(key, at, frame) == received(key, m, frame));
    assert(io_absorbed(key, at, body) == received(key, at, frame));
    assert(read_all(key, m, frame) == read_all(key, at, body));
    assert(read_all(key, at, body) == read_all(key, got, seq![]));
    assert(IoModel { ready: seq![], ..got } =~= next);
    assert(read_all(key, next, seq![]) == (next, Seq::<u8>::empty(), None::<ShadowTlsError>));
    assert(data + seq![] =~= data);
}

// ---------------------------------------------------------------------------
// Laws of a whole reading
// ---------------------------------------------------------------------------

/// What the reader and the transport bring to each step of a reading: the
/// room of the reader, and how many bytes the transport has at hand. Of both
/// there is always one at least.
pub struct Script {
    pub room: spec_fn(int) -> nat,
    pub at_hand: spec_fn(int) -> nat,
}

/// The smaller of two numbers, of which the first counts as one where it is
/// zero.
pub open spec fn at_most(n: nat, limit: nat) -> nat {
    let some = if n == 0 {
        1
    } else {
        n
    };
    if some < limit {
        some
    } else {
        limit
    }
}

/// A whole reading: what was delivered, and the error in which it ended.
#[verifier::ext_equal]
pub struct Reading {
    pub got: Seq<u8>,
    pub failed: Option<ShadowTlsError>,
}

/// The error in which a codec ends that gets nothing more.
pub open spec fn end_error(m: IoModel) -> Option<ShadowTlsError> {
    if m.ended {
        None
    } else if is_short(m.raw) {
        Some(ShadowTlsError::ShortFrame)
    } else if m.raw.len() < TLS_HEADER_SIZE {
        None
    } else {
        Some(ShadowTlsError::EofInFrame)
    }
}

/// What is read from a codec, step by step, until it ends, where the transport
/// has the bytes of `wire`, then its end.
pub open spec fn reading(key: Seq<u8>, m: IoModel, wire: Seq<u8>, s: Script, t: int) -> Reading
    decreases wire.len(), m.ready.len(),
{
    let n = missing(m.raw);
    if m.ready.len() > 0 {
        let k = at_most((s.room)(t), m.ready.len()) as int;
        let more = reading(key, IoModel { ready: m.ready.skip(k), ..m }, wire, s, t + 1);
        Reading { got: m.ready.take(k) + more.got, ..more }
    } else if wire.len() == 0 || !is_filling(m) || n <= 0 {
        Reading { got: seq![], failed: end_error(m) }
    } else {
        let k = at_most((s.at_hand)(t), if n < wire.len() {
            n as nat
        } else {
            wire.len()
        }) as int;
        let (next, e) = io_absorbed(key, m, wire.take(k));
        if e is Some {
            Reading { got: seq![], failed: e }
        } else {
            reading(key, next, wire.skip(k), s, t + 1)
        }
    }
}

/// Neither the room of the reader nor what the transport has at hand changes
/// what is read.
pub proof fn law_rooms_and_reads_do_not_matter(
    key: Seq<u8>,
    m: IoModel,
    wire: Seq<u8>,
    s: Script,
    t: int,
)
    ensures
        reading(key, m, wire, s, t) == (Reading {
            got: read_all(key, m, wire).1,
            failed: match read_all(key, m, wire).2 {
                Some(e) => Some(e),
                None => end_error(read_all(key, m, wire).0),
            },
        }),
    decreases wire.len(), m.ready.len(),
{
    let n = missing(m.raw);
    if m.ready.len() > 0 {
        let k = at_most((s.room)(t), m.ready.len()) as int;
        let next = IoModel { ready: m.ready.skip(k), ..m };
        let empty = IoModel { ready: seq![], ..m };
        law_rooms_and_reads_do_not_matter(key, next, wire, s, t + 1);
        let more = read_all(key, empty, wire).1;
        if next.ready.len() > 0 {
            assert(IoModel { ready: seq![], ..next } == empty);
            assert(m.ready.take(k) + (next.ready + more) =~= m.ready + more);
        } else {
            assert(next =~= empty);
            assert(m.ready.take(k) =~= m.ready);
        }
    } else if wire.len() == 0 || !is_filling(m) || n <= 0 {
    } else {
        let k = at_most((s.at_hand)(t), if n < wire.len() {
            n as nat
        } else {
            wire.len()
        }) as int;
        let x = wire.take(k);
        let left = wire.skip(k);
        assert(x + left =~= wire);
        if k < n {
            lemma_split_inside(key, m, x, left);
        }
        let (next, e) = io_absorbed(key, m, x);
        if e is None {
            law_rooms_and_reads_do_not_matter(key, next, left, s, t + 1);
        }
    }
}

/// Writes in frames, one behind another.
pub open spec fn writes_of(key: Seq<u8>, fed: Seq<u8>, writes: Seq<Seq<u8>>) -> Seq<u8>
    decreases writes.len(),
{
    if writes.len() == 0 {
        seq![]
    } else {
        frames_of(key, fed, writes[0]) + writes_of(
            key,
            fed_after(key, fed, writes[0]),
            writes.drop_first(),
        )
    }
}

/// The bytes of writes, one behind another.
pub open spec fn bytes_of(writes: Seq<Seq<u8>>) -> Seq<u8>
    decreases writes.len(),
{
    if writes.len() == 0 {
        seq![]
    } else {
        writes[0] + bytes_of(writes.drop_first())
    }
}

/// The first frame of writes has the tag that a control frame with its bytes
/// has, and control frames are still skipped.
pub open spec fn begins_like_control(key: Seq<u8>, m: IoModel, writes: Seq<Seq<u8>>) -> bool
    decreases writes.len(),
{
    if writes.len() == 0 {
        false
    } else if writes[0].len() == 0 {
        begins_like_control(key, m, writes.drop_first())
    } else {
        is_taken_for_control(key, m, writes[0].take(first_share(writes[0])))
    }
}

proof fn lemma_writes_are_read(key: Seq<u8>, m: IoModel, writes: Seq<Seq<u8>>)
    requires
        is_filling(m),
        m.raw.len() == 0,
        !begins_like_control(key, m, writes),
    ensures
        read_all(key, m, writes_of(key, m.read_fed, writes)).1 == bytes_of(writes),
        read_all(key, m, writes_of(key, m.read_fed, writes)).2 is None,
        is_filling(read_all(key, m, writes_of(key, m.read_fed, writes)).0),
        read_all(key, m, writes_of(key, m.read_fed, writes)).0.raw.len() == 0,
    decreases writes.len(),
{
    if writes.len() > 0 {
        let first = writes[0];
        let rest = writes.drop_first();
        let next = IoModel {
            read_fed: fed_after(key, m.read_fed, first),
            ignored: if first.len() == 0 {
                m.ignored
            } else {
                None
            },
            ..m
        };
        let wire = frames_of(key, m.read_fed, first);
        let left = writes_of(key, next.read_fed, rest);
        if first.len() == 0 {
            assert(first =~= seq![]);
            assert(next =~= m);
            assert(wire + left =~= left);
            assert(bytes_of(writes) =~= bytes_of(rest));
        } else {
            law_stream_round_trip(key, m, first);
            law_splits_do_not_matter(key, m, wire, left);
            lemma_no_control(key, next, rest);
        }
        lemma_writes_are_read(key, next, rest);
    }
}

proof fn lemma_no_control(key: Seq<u8>, m: IoModel, writes: Seq<Seq<u8>>)
    requires
        m.ignored is None,
    ensures
        !begins_like_control(key, m, writes),
    decreases writes.len(),
{
    if writes.len() > 0 {
        lemma_no_control(key, m, writes.drop_first());
    }
}

/// Whatever one side writes, in any number of writes of any length, is what
/// the other side reads, byte for byte and in order, and then the end of the
/// stream: however the bytes arrive and whatever room the reader has. While
/// control frames are still skipped, the first frame must not have the tag of
/// one.
pub proof fn law_writes_are_delivered(key: Seq<u8>, m: IoModel, writes: Seq<Seq<u8>>, s: Script)
    requires
        is_filling(m),
        m.raw.len() == 0,
        !begins_like_control(key, m, writes),
    ensures
        reading(key, m, writes_of(key, m.read_fed, writes), s, 0) == (Reading {
            got: bytes_of(writes),
            failed: None,
        }),
{
    lemma_writes_are_read(key, m, writes);
    law_rooms_and_reads_do_not_matter(key, m, writes_of(key, m.read_fed, writes), s, 0);
}

/// A reader for whom the tag of the next frame is another one, such as one
/// with another password, gets an error and no byte of the frame or of what
/// stands behind it.
pub proof fn law_other_tag_is_refused(
    key: Seq<u8>,
    m: IoModel,
    tag: Seq<u8>,
    data: Seq<u8>,
    behind: Seq<u8>,
    s: Script,
)
    requires
        is_filling(m),
        m.raw.len() == 0,
        tag.len() == 4,
        data.len() <= MAX_FRAME_PAYLOAD,
        tag != tag_of(key, m.read_fed + data),
        m.ignored is Some ==> tag != tag_of(key, m.ignored->0 + data),
    ensures
        reading(key, m, frame_bytes(tag, data) + behind, s, 0) == (Reading {
            got: seq![],
            failed: Some(ShadowTlsError::TagMismatch),
        }),
{
    let frame = frame_bytes(tag, data);
    lemma_frame(tag, data, seq![]);
    assert(m.raw =~= seq![]);
    let head = frame.take(5);
    let body = frame.skip(5);
    let at = IoModel { raw: head, ..m };
    assert(m.raw + head =~= head);
    assert(head[3] == frame[3]);
    assert(head[4] == frame[4]);
    assert(io_absorbed(key, m, head) == (at, None::<ShadowTlsError>));
    assert(missing(head) == body.len());
    assert(head + body =~= frame);
    assert(missing(frame) == 0);
    assert(body.take(body.len() as int) =~= body);
    assert(io_absorbed(key, at, body) == received(key, at, frame));
    assert(read_all(key, m, frame) == read_all(key, at, body));
    assert(read_all(key, m, frame).1 == Seq::<u8>::empty());
    assert(read_all(key, m, frame).2 == Some(ShadowTlsError::TagMismatch));
    law_splits_do_not_matter(key, m, frame, behind);
    law_rooms_and_reads_do_not_matter(key, m, frame + behind, s, 0);
}

/// What one side writes under another password is refused at its first frame,
/// unless the two passwords give one tag.
pub proof fn law_other_password_is_refused(
    key: Seq<u8>,
    other: Seq<u8>,
    fed: Seq<u8>,
    m: IoModel,
    payload: Seq<u8>,
    behind: Seq<u8>,
    s: Script,
)
    requires
        is_filling(m),
        m.raw.len() == 0,
        payload.len() > 0,
        ({
            let part = payload.take(first_share(payload));
            let tag = tag_of(other, fed + part);
            &&& tag != tag_of(key, m.read_fed + part)
            &&& m.ignored is Some ==> tag != tag_of(key, m.ignored->0 + part)
        }),
    ensures
        reading(key, m, frames_of(other, fed, payload) + behind, s, 0) == (Reading {
            got: seq![],
            failed: Some(ShadowTlsError::TagMismatch),
        }),
{
    let n = first_share(payload);
    let part = payload.take(n);
    let tag = tag_of(other, fed + part);
    let rest = frames_of(other, fed + part + tag, payload.skip(n));
    assert(frames_of(other, fed, payload) + behind =~= frame_bytes(tag, part) + (rest + behind));
    law_other_tag_is_refused(key, m, tag, part, rest + behind, s);
}

impl ShadowTlsError {
    /// The text that is shown for the error.
    pub open spec fn text(self) -> Seq<char> {
        match self {
            ShadowTlsError::EofInRecord => "shadow-tls: EOF inside a TLS record"@,
            ShadowTlsError::EofInFrame => "shadow-tls: EOF inside a frame"@,
            ShadowTlsError::ShortFrame => "shadow-tls: frame shorter than its HMAC"@,
            ShadowTlsError::UnexpectedType(t) => "shadow-tls: unexpected frame content type 0x"@
                + net::hex_numeral(t as nat),
            ShadowTlsError::TagMismatch => "shadow-tls: frame HMAC mismatch"@,
            ShadowTlsError::WriteZero => "shadow-tls: failed to write frame"@,
            ShadowTlsError::FlushZero => "shadow-tls: failed to flush frame"@,
        }
    }

    /// The text that is shown for the error.
    pub fn message(&self) -> (r: String)
        ensures
            r@ == self.text(),
    {
        let mut out: Vec<char> = Vec::new();
        match self {
            ShadowTlsError::EofInRecord => {
                text::append_str(&mut out, "shadow-tls: EOF inside a TLS record");
            },
            ShadowTlsError::EofInFrame => {
                text::append_str(&mut out, "shadow-tls: EOF inside a frame");
            },
            ShadowTlsError::ShortFrame => {
                text::append_str(&mut out, "shadow-tls: frame shorter than its HMAC");
            },
            ShadowTlsError::UnexpectedType(t) => {
                text::append_str(&mut out, "shadow-tls: unexpected frame content type 0x");
                net::push_hex(&mut out, *t as u32);
            },
            ShadowTlsError::TagMismatch => {
                text::append_str(&mut out, "shadow-tls: frame HMAC mismatch");
            },
            ShadowTlsError::WriteZero => {
                text::append_str(&mut out, "shadow-tls: failed to write frame");
            },
            ShadowTlsError::FlushZero => {
                text::append_str(&mut out, "shadow-tls: failed to flush frame");
            },
        }
        assert(out@ =~= self.text());
        text::string_of(out.as_slice())
    }
}

/// A stream in one of the two roles before its first frame.
pub open spec fn fresh_io(random: Seq<u8>, role: FrameRole) -> IoModel {
    IoModel {
        raw: seq![],
        ready: seq![],
        read_fed: random + role.peer_label(),
        ignored: Some(random),
        ended: false,
        write_fed: random + role.own_label(),
        pending: seq![],
    }
}

/// What a finished handshake goes on as.
pub open spec fn goes_on_as(tap: HandshakeTap, r: Result<ShadowTlsIo, RelayError>) -> bool {
    &&& r is Ok == tap@.authorized
    &&& r matches Err(e) ==> e == RelayError::NotAuthorized
    &&& r matches Ok(io) ==> tap@.random is Some && io.wf() && io.password == tap.password && io@
        == fresh_io(tap@.random->0, FrameRole::Client)
}

/// A handshake goes on only where the server has proved itself. The client then marks what it
/// writes with the random bytes and a C, and expects those and an S in what it reads; the
/// server does it the other way round.
pub proof fn law_directions_are_told_apart(
    tap: HandshakeTap,
    r: Result<ShadowTlsIo, RelayError>,
    random: Seq<u8>,
)
    requires
        goes_on_as(tap, r),
    ensures
        !tap@.authorized ==> r is Err,
        tap@.authorized ==> (r matches Ok(io) && io@.write_fed == tap@.random->0.push('C' as u8)
            && io@.read_fed == tap@.random->0.push('S' as u8) && io@.ignored == tap@.random),
        fresh_io(random, FrameRole::Server).write_fed == random.push('S' as u8),
        fresh_io(random, FrameRole::Server).read_fed == random.push('C' as u8),
        fresh_io(random, FrameRole::Client).write_fed == random.push('C' as u8),
        fresh_io(random, FrameRole::Client).read_fed == random.push('S' as u8),
{
    assert(random + seq![67u8] =~= random.push(67));
    assert(random + seq![83u8] =~= random.push(83));
    if tap@.authorized {
        let own = tap@.random->0;
        assert(own + seq![67u8] =~= own.push(67));
        assert(own + seq![83u8] =~= own.push(83));
    }
}

/// A mark is the first four bytes of the MAC.
pub proof fn law_mark_is_the_start_of_the_mac(key: Seq<u8>, msg: Seq<u8>)
    requires
        crypto::hmac_sha1_of(key, msg).len() >= 4,
    ensures
        tag_of(key, msg) == crypto::hmac_sha1_of(key, msg).take(4),
{
    assert(tag_of(key, msg) =~= crypto::hmac_sha1_of(key, msg).take(4));
}

/// A write of at most 65531 bytes goes out as one application record of TLS 1.2: its length, the
/// mark over all that was fed before and the bytes, and the bytes as they are. Both then count
/// for the marks that follow.
pub proof fn law_frame_layout(key: Seq<u8>, fed: Seq<u8>, payload: Seq<u8>)
    requires
        0 < payload.len() <= 65531,
    ensures
        ({
            let f = frames_of(key, fed, payload);
            &&& f.len() == 9 + payload.len()
            &&& f[0] == 0x17 && f[1] == 3 && f[2] == 3
            &&& f[3] * 256 + f[4] == 4 + payload.len()
            &&& f.subrange(5, 9) == tag_of(key, fed + payload)
            &&& f.skip(9) == payload
            &&& fed_after(key, fed, payload) == fed + payload + tag_of(key, fed + payload)
        }),
{
    let n = payload.len() + 4;
    let f = frames_of(key, fed, payload);
    assert(payload.take(payload.len() as int) =~= payload);
    assert(payload.skip(payload.len() as int) =~= seq![]);
    reveal_with_fuel(frames_of, 2);
    reveal_with_fuel(fed_after, 2);
    net::law_high_bytes_first(n, 2);
    net::law_high_bytes_first(n / 256, 1);
    let b = net::be_bytes(n, 2);
    assert(b.drop_last().last() == b[0]);
    assert(f[3] == b[0] && f[4] == b[1]);
    assert(f.subrange(5, 9) =~= tag_of(key, fed + payload));
    assert(f.skip(9) =~= payload);
}

/// What does not fit into one frame goes into the next: the first takes 65531 bytes.
pub proof fn law_long_writes_are_cut(key: Seq<u8>, fed: Seq<u8>, payload: Seq<u8>)
    requires
        payload.len() > 65531,
    ensures
        ({
            let first = payload.take(65531);
            frames_of(key, fed, payload) == frames_of(key, fed, first) + frames_of(
                key,
                fed_after(key, fed, first),
                payload.skip(65531),
            )
        }),
{
    let first = payload.take(65531);
    assert(first.take(65531) =~= first);
    assert(first.skip(65531) =~= seq![]);
    reveal_with_fuel(frames_of, 2);
    reveal_with_fuel(fed_after, 2);
    let part = frame_bytes(tag_of(key, fed + first), first);
    assert(frames_of(key, fed, first) =~= part);
}

/// The answer of the server to the first message passes as it is, and its random bytes, which
/// stand behind eleven others, are noted.
pub proof fn law_random_of_the_server_is_noted(password: Seq<u8>, m: TapModel, record: Seq<u8>)
    requires
        record.len() > 43,
        record[0] == 0x16,
        record[5] == 2,
    ensures
        ({
            let n = tapped(password, m, record);
            &&& n.ready == record
            &&& n.random == Some(record.subrange(11, 43))
            &&& n.authorized == m.authorized
            &&& n.auth_checked == m.auth_checked
        }),
{
}

/// The first application record behind the server's random bytes decides. Where its mark fits,
/// the server has proved itself, and the record is handed on without the mark and with its
/// bytes restored; else it is handed on as it is. No later record changes that.
pub proof fn law_first_record_decides(
    password: Seq<u8>,
    m: TapModel,
    record: Seq<u8>,
    random: Seq<u8>,
)
    requires
        9 < record.len() <= 0x1_0004,
        record[0] == 0x17,
        m.random == Some(random),
    ensures
        ({
            let n = tapped(password, m, record);
            let fits = tag_of(password, random + record.skip(9)) == record.subrange(5, 9);
            let key = crypto::sha256_of(password + random);
            &&& m.auth_checked ==> n.ready == record && n.authorized == m.authorized
            &&& !m.auth_checked && !fits ==> n.ready == record && n.authorized == m.authorized
                && n.auth_checked
            &&& !m.auth_checked && fits ==> {
                &&& n.authorized && n.auth_checked
                &&& n.ready.len() == record.len() - 4
                &&& n.ready[0] == 0x17 && n.ready[1] == record[1] && n.ready[2] == record[2]
                &&& n.ready[3] * 256 + n.ready[4] == record.len() - 9
                &&& forall|i: int|
                    0 <= i < record.len() - 9 ==> #[trigger] n.ready[5 + i] == record[9 + i] ^ key[i
                        % 32]
            }
        }),
{
    let n = tapped(password, m, record);
    let fits = tag_of(password, random + record.skip(9)) == record.subrange(5, 9);
    if !m.auth_checked && fits {
        let len = (record.len() - 9) as nat;
        net::law_high_bytes_first(len, 2);
        net::law_high_bytes_first(len / 256, 1);
        let b = net::be_bytes(len, 2);
        assert(b.drop_last().last() == b[0]);
        assert(n.ready[3] == b[0] && n.ready[4] == b[1]);
        let key = crypto::sha256_of(password + random);
        assert forall|i: int| 0 <= i < record.len() - 9 implies #[trigger] n.ready[5 + i]
            == record[9 + i] ^ key[i % 32] by {
            assert(n.ready[5 + i] == overlaid(record.skip(9), key)[i]);
            assert(record.skip(9)[i] == record[9 + i]);
        }
    }
}

/// TLS 1.3 is recognised by the extension that names it, wherever in the list it stands behind
/// one other extension, or first.
pub proof fn law_tls13_is_recognised(record: Seq<u8>, n: int)
    requires
        43 < record.len(),
        ({
            let p = 49 + record[43];
            &&& 0 <= n
            &&& p + 4 + n + 6 <= record.len()
            &&& word_at(record, p - 2) == 4 + n + 6
            &&& word_at(record, p + 2) == n
            &&& word_at(record, p) != 43
            &&& record.subrange(p + 4 + n, p + 4 + n + 6) == seq![0u8, 43, 0, 2, 3, 4]
        }),
    ensures
        is_tls13(record),
{
    let p = 49 + record[43];
    let q = p + 4 + n;
    let e = record.subrange(q, q + 6);
    assert(e[0] == record[q] && e[1] == record[q + 1] && e[2] == record[q + 2] && e[3] == record[q
        + 3] && e[4] == record[q + 4] && e[5] == record[q + 5]);
    reveal_with_fuel(names_tls13, 3);
}

/// A frame with the right mark is delivered and counts for the marks that follow; an alert ends
/// the stream; anything else that is no application record is an error.
pub proof fn law_frames_are_judged(key: Seq<u8>, m: IoModel, raw: Seq<u8>)
    requires
        raw.len() >= 9,
    ensures
        ({
            let r = received(key, m, raw);
            let data = raw.skip(9);
            let tag = raw.subrange(5, 9);
            let mine = tag_of(key, m.read_fed + data) == tag;
            let control = m.ignored is Some && tag_of(key, m.ignored->0 + data) == tag;
            let record = raw[0] == 0x17 && raw[1] == 3 && raw[2] == 3;
            &&& raw[0] == 0x15 ==> r.0.ended && r.1 is None && r.0.ready == m.ready
            &&& raw[0] != 0x15 && !record ==> r.1 == Some(ShadowTlsError::UnexpectedType(raw[0]))
            &&& record && control ==> r.1 is None && r.0 == (IoModel { raw: seq![], ..m })
            &&& record && !control && mine ==> r.1 is None && r.0.ready == data && r.0.ignored is None
                && r.0.read_fed == m.read_fed + data + tag
            &&& record && !control && !mine ==> r.1 == Some(ShadowTlsError::TagMismatch)
                && r.0.ready == m.ready
        }),
{
}

/// What a read during the handshake comes to.
pub open spec fn tap_polled(m: TapModel, room: usize, r: ReadStep, after: TapModel) -> bool {
    if m.ready.len() > 0 {
        let k = if room < m.ready.len() { room as int } else { m.ready.len() as int };
        &&& r matches ReadStep::Deliver(d) && d@ == m.ready.take(k)
        &&& after == (TapModel { ready: m.ready.skip(k), ..m })
    } else if room == 0 {
        &&& r matches ReadStep::Deliver(d) && d@ == Seq::<u8>::empty()
        &&& after == m
    } else {
        &&& r == ReadStep::Fill(missing(m.raw) as usize)
        &&& after == m
    }
}

/// What a read comes to.
pub open spec fn polled(m: IoModel, room: usize, r: ReadStep, after: IoModel) -> bool {
    if m.ready.len() > 0 {
        let k = if room < m.ready.len() { room as int } else { m.ready.len() as int };
        &&& r matches ReadStep::Deliver(d) && d@ == m.ready.take(k)
        &&& after == (IoModel { ready: m.ready.skip(k), ..m })
    } else if room == 0 || m.ended {
        &&& r matches ReadStep::Deliver(d) && d@ == Seq::<u8>::empty()
        &&& after == m
    } else if is_short(m.raw) {
        &&& r == ReadStep::Fail(ShadowTlsError::ShortFrame)
        &&& after == m
    } else {
        &&& r == ReadStep::Fill(missing(m.raw) as usize)
        &&& after == m
    }
}

/// What an offer of bytes comes to.
pub open spec fn offered(
    key: Seq<u8>,
    m: IoModel,
    data: Seq<u8>,
    r: WriteStep,
    after: IoModel,
) -> bool {
    if data.len() == 0 {
        &&& r == WriteStep::Done(0)
        &&& after == m
    } else if m.pending.len() > 0 {
        &&& r == WriteStep::Drain
        &&& after == m
    } else {
        &&& r == WriteStep::Drain
        &&& after == (IoModel {
            pending: frames_of(key, m.write_fed, data),
            write_fed: fed_after(key, m.write_fed, data),
            ..m
        })
    }
}

/// A reader gets the bytes in order: what it is handed now and what is left for it make up what
/// there was. Without any it waits for what the record lacks, five bytes and those that its
/// header announces; a frame too short for its mark is an error.
pub proof fn law_reader_gets_bytes_in_order(m: IoModel, room: usize, r: ReadStep, after: IoModel)
    requires
        polled(m, room, r, after),
        room > 0,
    ensures
        m.ready.len() > 0 ==> (r matches ReadStep::Deliver(d) && 0 < d@.len() <= room && d@
            + after.ready == m.ready && after == (IoModel { ready: after.ready, ..m })),
        m.ready.len() == 0 && m.ended ==> (r matches ReadStep::Deliver(d) && d@.len() == 0),
        m.ready.len() == 0 && !m.ended && m.raw.len() < 5 ==> r == ReadStep::Fill(
            (5 - m.raw.len()) as usize,
        ),
        m.ready.len() == 0 && !m.ended && m.raw.len() >= 5 && m.raw[3] * 256 + m.raw[4] < 4 ==> r
            == ReadStep::Fail(ShadowTlsError::ShortFrame),
        m.ready.len() == 0 && !m.ended && m.raw.len() >= 5 && m.raw[3] * 256 + m.raw[4] >= 4 ==> r
            == ReadStep::Fill((5 + m.raw[3] * 256 + m.raw[4] - m.raw.len()) as usize),
{
    if m.ready.len() > 0 {
        let k = if room < m.ready.len() { room as int } else { m.ready.len() as int };
        assert(m.ready.take(k) + m.ready.skip(k) =~= m.ready);
    }
}

/// During the handshake a reader gets the records in order, too, and waits for whole records.
pub proof fn law_handshake_is_read_in_order(m: TapModel, room: usize, r: ReadStep, after: TapModel)
    requires
        tap_polled(m, room, r, after),
        room > 0,
    ensures
        m.ready.len() > 0 ==> (r matches ReadStep::Deliver(d) && 0 < d@.len() <= room && d@
            + after.ready == m.ready && after == (TapModel { ready: after.ready, ..m })),
        m.ready.len() == 0 && m.raw.len() < 5 ==> r == ReadStep::Fill((5 - m.raw.len()) as usize),
        m.ready.len() == 0 && m.raw.len() >= 5 ==> r == ReadStep::Fill(
            (5 + m.raw[3] * 256 + m.raw[4] - m.raw.len()) as usize,
        ),
{
    if m.ready.len() > 0 {
        let k = if room < m.ready.len() { room as int } else { m.ready.len() as int };
        assert(m.ready.take(k) + m.ready.skip(k) =~= m.ready);
    }
}

/// What a writer offers goes out in frames, all of it, once what was offered before is gone; a
/// peer that has read as far as the writer has written reads it back.
pub proof fn law_offer_is_read_back(
    key: Seq<u8>,
    m: IoModel,
    data: Seq<u8>,
    r: WriteStep,
    after: IoModel,
    peer: IoModel,
)
    requires
        offered(key, m, data, r, after),
        data.len() > 0,
        m.pending.len() == 0,
        is_filling(peer),
        peer.raw.len() == 0,
        peer.ignored is None,
        peer.read_fed == m.write_fed,
    ensures
        r is Drain,
        read_all(key, peer, after.pending).1 == data,
        read_all(key, peer, after.pending).2 is None,
        read_all(key, peer, after.pending).0.read_fed == after.write_fed,
{
    law_stream_round_trip(key, peer, data);
}

/// A record of the handshake is looked at when it is whole, by the length in its header, and
/// not before.
pub proof fn law_records_are_taken_whole(password: Seq<u8>, m: TapModel, data: Seq<u8>)
    ensures
        ({
            let raw = m.raw + data;
            let n = tap_absorbed(password, m, data);
            &&& raw.len() < 5 || raw.len() < 5 + raw[3] * 256 + raw[4] ==> n == (TapModel {
                raw,
                ..m
            })
            &&& raw.len() >= 5 && raw.len() == 5 + raw[3] * 256 + raw[4] ==> n == tapped(
                password,
                m,
                raw,
            ) && n.raw.len() == 0 && n.ready.len() > 0
        }),
{
    let raw = m.raw + data;
    if raw.len() >= 5 && raw.len() == 5 + raw[3] * 256 + raw[4] {
        net::lemma_be_bytes_len((raw.len() - 9) as nat, 2);
    }
}

} // verus!
