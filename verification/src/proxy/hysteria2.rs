//! The Hysteria2 protocol.

use vstd::prelude::*;
use vstd::string::StringSliceAdditionalSpecFns;

use crate::config;
use crate::config::TlsConfig;
use crate::net;
use crate::proxy::race::Race;
use crate::text;

verus! {

broadcast use {
    vstd::seq::group_seq_axioms,
    vstd::slice::group_slice_axioms,
    vstd::string::group_string_axioms,
    vstd::std_specs::vec::group_vec_axioms,
};

/// Seconds for a handshake with one address.
pub const HY2_CONNECT_TIMEOUT_SECS: u64 = 7;

/// Attempts on an address that is the only one.
pub const HY2_CONNECT_ATTEMPTS_PER_ADDR: usize = 2;

/// Milliseconds between attempts on the only address.
pub const HY2_CONNECT_RETRY_BACKOFF_MS: u64 = 250;

/// Milliseconds between attempts that race.
pub const HY2_STAGGER_MS: u64 = 500;

/// The longest message of a server's answer.
pub const HY2_MAX_TCP_RESPONSE_MSG_LEN: u64 = 65536;

/// The longest padding of a server's answer.
pub const HY2_MAX_PADDING_LEN: u64 = 1048576;

/// The number that begins a request for a TCP stream.
pub const TCP_REQUEST_ID: u64 = 0x401;

/// The status with which a server accepts a client.
pub const AUTH_OK_STATUS: u16 = 233;

// ---------------------------------------------------------------------------
// The server
// ---------------------------------------------------------------------------

/// A Hysteria2 server.
#[derive(Debug)]
pub struct Hysteria2Outbound {
    pub server: String,
    pub port: u16,
    pub password: String,
    pub sni: String,
    pub skip_cert_verify: bool,
    /// The protocols to offer, each in a handshake of its own, in order.
    pub alpn_candidates: Vec<String>,
    /// The protocol that worked last.
    pub working_alpn: Option<String>,
}

/// The server that a configuration describes.
pub open spec fn is_outbound_for(
    o: Hysteria2Outbound,
    server: Seq<char>,
    port: u16,
    password: Seq<char>,
    tls: Option<config::TlsModel>,
) -> bool {
    &&& o.server@ == server
    &&& o.port == port
    &&& o.password@ == password
    &&& o.sni@ == (match tls {
        Some(t) => match t.sni {
            Some(s) => s,
            None => server,
        },
        None => server,
    })
    &&& o.skip_cert_verify == (tls is Some && tls->0.skip_cert_verify)
    &&& config::text_list(o.alpn_candidates@) == (match tls {
        Some(t) => match t.alpn {
            Some(l) => l,
            None => seq!["hysteria"@, "h3"@],
        },
        None => seq!["hysteria"@, "h3"@],
    })
    &&& o.working_alpn is None
}

fn default_alpn() -> (r: Vec<String>)
    ensures
        config::text_list(r@) == seq!["hysteria"@, "h3"@],
{
    let mut out: Vec<String> = Vec::new();
    out.push(text::string_of(text::chars_of("hysteria").as_slice()));
    out.push(text::string_of(text::chars_of("h3").as_slice()));
    assert(config::text_list(out@) =~= seq!["hysteria"@, "h3"@]);
    out
}

/// The protocols in the order in which they are tried: the one that worked
/// last, then the candidates, none of them twice.
pub open spec fn alpn_order_of(working: Option<Seq<char>>, candidates: Seq<Seq<char>>) -> Seq<
    Seq<char>,
>
    decreases candidates.len(),
{
    if candidates.len() == 0 {
        match working {
            Some(w) => seq![w],
            None => seq![],
        }
    } else {
        let before = alpn_order_of(working, candidates.drop_last());
        if before.contains(candidates.last()) {
            before
        } else {
            before.push(candidates.last())
        }
    }
}

fn holds_text(list: &Vec<String>, item: &str) -> (r: bool)
    ensures
        r == config::text_list(list@).contains(item@),
{
    let mut i: usize = 0;
    while i < list.len()
        invariant
            i <= list@.len(),
            forall|k: int| 0 <= k < i ==> (#[trigger] list@[k])@ != item@,
        decreases list@.len() - i,
    {
        if text::str_eq(list[i].as_str(), item) {
            assert(config::text_list(list@)[i as int] == item@);
            return true;
        }
        i = i + 1;
    }
    proof {
        let l = config::text_list(list@);
        assert forall|k: int| 0 <= k < l.len() implies l[k] != item@ by {
            assert(list@[k]@ != item@);
        }
    }
    false
}

impl Hysteria2Outbound {
    /// A server. Without a choice of its own, a client offers the protocols
    /// `hysteria` and `h3`, and names the server in its handshake.
    pub fn new(server: &str, port: u16, password: &str, tls_config: Option<&TlsConfig>) -> (r:
        Result<Self, String>)
        ensures
            r matches Ok(o) && is_outbound_for(
                o,
                server@,
                port,
                password@,
                config::tls_model(tls_config),
            ),
    {
        let mut sni = text::string_of(text::chars_of(server).as_slice());
        let mut skip_cert_verify = false;
        let mut alpn_candidates = default_alpn();
        if let Some(t) = tls_config {
            if let Some(s) = &t.sni {
                sni = s.clone();
            }
            skip_cert_verify = t.skip_cert_verify;
            if let Some(l) = &t.alpn {
                alpn_candidates = config::copy_list(l);
            }
        }
        Ok(
            Hysteria2Outbound {
                server: text::string_of(text::chars_of(server).as_slice()),
                port,
                password: text::string_of(text::chars_of(password).as_slice()),
                sni,
                skip_cert_verify,
                alpn_candidates,
                working_alpn: None,
            },
        )
    }

    /// The protocols in the order in which they are tried.
    pub fn alpn_order(&self) -> (r: Vec<String>)
        ensures
            config::text_list(r@) == alpn_order_of(
                config::opt_text(self.working_alpn),
                config::text_list(self.alpn_candidates@),
            ),
    {
        let ghost working = config::opt_text(self.working_alpn);
        let ghost all = config::text_list(self.alpn_candidates@);
        let mut out: Vec<String> = Vec::new();
        if let Some(w) = &self.working_alpn {
            out.push(w.clone());
        }
        assert(config::text_list(out@) =~= alpn_order_of(working, all.take(0)));
        let mut i: usize = 0;
        while i < self.alpn_candidates.len()
            invariant
                i <= self.alpn_candidates@.len(),
                all == config::text_list(self.alpn_candidates@),
                config::text_list(out@) == alpn_order_of(working, all.take(i as int)),
            decreases self.alpn_candidates@.len() - i,
        {
            let ghost t = all.take(i + 1);
            assert(t.drop_last() =~= all.take(i as int));
            assert(t.last() == self.alpn_candidates@[i as int]@);
            if !holds_text(&out, self.alpn_candidates[i].as_str()) {
                let ghost before = config::text_list(out@);
                out.push(self.alpn_candidates[i].clone());
                assert(config::text_list(out@) =~= before.push(t.last()));
            }
            i = i + 1;
        }
        assert(all.take(i as int) =~= all);
        out
    }

    /// A handshake succeeded with this protocol, which is offered first from
    /// now on.
    pub fn remember_alpn(&mut self, alpn: String)
        ensures
            *final(self) == (Hysteria2Outbound { working_alpn: Some(alpn), ..*old(self) }),
    {
        self.working_alpn = Some(alpn);
    }

    /// How the addresses of the server are tried.
    pub fn plan(&self, addresses: usize) -> (r: ConnectPlan)
        requires
            addresses * self.alpn_candidates@.len() <= usize::MAX,
        ensures
            r == plan_of(self.working_alpn is Some, addresses, self.alpn_order_len()),
    {
        proof {
            lemma_order_len(
                config::opt_text(self.working_alpn),
                config::text_list(self.alpn_candidates@),
            );
        }
        if self.working_alpn.is_some() {
            if addresses == 1 {
                ConnectPlan::Retry { attempts: HY2_CONNECT_ATTEMPTS_PER_ADDR }
            } else {
                ConnectPlan::Race(Race::new(addresses, false))
            }
        } else {
            let alpns = self.alpn_order().len();
            assert(addresses * alpns <= addresses * self.alpn_candidates@.len()) by (nonlinear_arith)
                requires
                    alpns <= self.alpn_candidates@.len(),
                    addresses >= 0,
            ;
            ConnectPlan::Race(Race::new(addresses * alpns, false))
        }
    }

    /// How many protocols there are to try.
    pub open spec fn alpn_order_len(self) -> int {
        alpn_order_of(
            config::opt_text(self.working_alpn),
            config::text_list(self.alpn_candidates@),
        ).len() as int
    }
}

proof fn lemma_order_len(working: Option<Seq<char>>, candidates: Seq<Seq<char>>)
    ensures
        alpn_order_of(working, candidates).len() <= candidates.len() + if working is Some {
            1int
        } else {
            0int
        },
    decreases candidates.len(),
{
    if candidates.len() > 0 {
        lemma_order_len(working, candidates.drop_last());
    }
}

/// No protocol is tried twice, and the one that worked last comes first.
pub proof fn law_alpn_order(working: Option<Seq<char>>, candidates: Seq<Seq<char>>)
    ensures
        ({
            let order = alpn_order_of(working, candidates);
            &&& order.no_duplicates()
            &&& working matches Some(w) ==> order.len() > 0 && order[0] == w
            &&& forall|k: int| 0 <= k < candidates.len() ==> order.contains(#[trigger] candidates[k])
        }),
    decreases candidates.len(),
{
    if candidates.len() > 0 {
        let d = candidates.drop_last();
        law_alpn_order(working, d);
        let before = alpn_order_of(working, d);
        let order = alpn_order_of(working, candidates);
        assert forall|k: int| 0 <= k < candidates.len() implies order.contains(
            #[trigger] candidates[k],
        ) by {
            if k < d.len() {
                assert(d[k] == candidates[k]);
                let j = choose|j: int| 0 <= j < before.len() && before[j] == d[k];
                assert(order[j] == candidates[k]);
            } else if !before.contains(candidates.last()) {
                assert(order[order.len() - 1] == candidates[k]);
            }
        }
    }
}

/// How the addresses of a server are tried.
#[derive(Debug)]
pub enum ConnectPlan {
    /// One address with the protocol that worked last: attempt after attempt,
    /// with a pause between them.
    Retry { attempts: usize },
    /// A race. With a protocol that worked last it runs over the addresses
    /// alone, otherwise over the addresses with each of the protocols.
    Race(Race),
}

/// How the addresses of a server are tried.
pub open spec fn plan_of(remembered: bool, addresses: usize, alpns: int) -> ConnectPlan {
    if remembered && addresses == 1 {
        ConnectPlan::Retry { attempts: HY2_CONNECT_ATTEMPTS_PER_ADDR }
    } else {
        ConnectPlan::Race(
            Race {
                total: (if remembered {
                    addresses as int
                } else {
                    addresses * alpns
                }) as usize,
                next: 0,
                running: 0,
                rested: false,
                report_early: false,
                failed: None,
            },
        )
    }
}

/// Attempt after attempt on one address.
pub struct Retries {
    attempts: usize,
    failed: usize,
}

/// The same as contracts speak of it.
#[verifier::ext_equal]
pub struct RetriesModel {
    /// Attempts that are made at most.
    pub attempts: nat,
    /// Attempts that failed.
    pub failed: nat,
}

impl View for Retries {
    type V = RetriesModel;

    closed spec fn view(&self) -> RetriesModel {
        RetriesModel { attempts: self.attempts as nat, failed: self.failed as nat }
    }
}

/// What follows from an attempt that failed.
#[derive(Debug, Clone, Copy, PartialEq, Eq, Structural)]
pub enum RetryStep {
    /// Pause for this many milliseconds, then try again.
    Pause(u64),
    /// The error stands.
    GiveUp,
}

impl Retries {
    /// No attempt was made.
    pub fn new(attempts: usize) -> (r: Self)
        ensures
            r@ == (RetriesModel { attempts: attempts as nat, failed: 0 }),
    {
        Retries { attempts, failed: 0 }
    }

    /// An attempt failed.
    pub fn on_failure(&mut self) -> (r: RetryStep)
        requires
            old(self)@.failed < old(self)@.attempts,
        ensures
            final(self)@ == (RetriesModel { failed: old(self)@.failed + 1, ..old(self)@ }),
            r == (if old(self)@.failed + 1 < old(self)@.attempts {
                RetryStep::Pause(HY2_CONNECT_RETRY_BACKOFF_MS)
            } else {
                RetryStep::GiveUp
            }),
    {
        self.failed = self.failed + 1;
        if self.failed < self.attempts {
            RetryStep::Pause(HY2_CONNECT_RETRY_BACKOFF_MS)
        } else {
            RetryStep::GiveUp
        }
    }
}

/// The address and the protocol of an attempt in a race over both: the
/// protocols of one address come before those of the next.
pub fn attempt_pair(attempt: usize, alpns: usize) -> (r: (usize, usize))
    requires
        alpns > 0,
    ensures
        is_pair(r, attempt, alpns),
{
    (attempt / alpns, attempt % alpns)
}

// ---------------------------------------------------------------------------
// Integers of variable length
// ---------------------------------------------------------------------------

/// The largest number that an integer of variable length holds.
pub const VARINT_MAX: u64 = 0x3fff_ffff_ffff_ffff;

/// An integer on the wire: one, two, four or eight bytes, with the length in
/// the upper two bits.
pub open spec fn varint_bytes(v: u64) -> Seq<u8> {
    if v < 64 {
        net::be_bytes(v as nat, 1)
    } else if v < 16384 {
        net::be_bytes((v + 0x4000) as nat, 2)
    } else if v < 1_073_741_824 {
        net::be_bytes((v + 0x8000_0000) as nat, 4)
    } else if v <= VARINT_MAX {
        net::be_bytes((v + 0xC000_0000_0000_0000) as nat, 8)
    } else {
        net::be_bytes((v | 0xC000_0000_0000_0000) as nat, 8)
    }
}

/// Appends an integer of variable length.
pub fn push_varint(out: &mut Vec<u8>, v: u64)
    ensures
        final(out)@ == old(out)@ + varint_bytes(v),
{
    if v < 64 {
        net::push_be(out, v as u128, 1);
    } else if v < 16384 {
        net::push_be(out, (v + 0x4000) as u128, 2);
    } else if v < 1_073_741_824 {
        net::push_be(out, (v + 0x8000_0000) as u128, 4);
    } else {
        let tagged: u64 = v | 0xC000_0000_0000_0000;
        proof {
            if v <= VARINT_MAX {
                assert(v | 0xC000_0000_0000_0000u64 == v + 0xC000_0000_0000_0000u64) by (bit_vector)
                    requires
                        v <= 0x3fff_ffff_ffff_ffffu64,
                ;
            }
        }
        net::push_be(out, tagged as u128, 8);
    }
}

/// How long an integer is, by its first byte.
pub open spec fn varint_len(first: u8) -> int {
    if first < 0x40 {
        1
    } else if first < 0x80 {
        2
    } else if first < 0xC0 {
        4
    } else {
        8
    }
}

/// The integer at the start of a message, with its length; nothing if the
/// message is too short.
pub open spec fn varint_at(b: Seq<u8>) -> Option<(nat, int)> {
    if b.len() == 0 || b.len() < varint_len(b[0]) {
        None
    } else {
        let n = varint_len(b[0]);
        Some((net::be_value(seq![(b[0] % 64) as u8] + b.subrange(1, n)), n))
    }
}

/// The integer at the start of a message, with its length.
pub fn read_varint(b: &[u8]) -> (r: Option<(u64, usize)>)
    ensures
        r is Some == varint_at(b@) is Some,
        r matches Some(v) ==> varint_at(b@) == Some((v.0 as nat, v.1 as int)) && v.1 <= b@.len(),
{
    if b.len() == 0 {
        return None;
    }
    let first: u8 = b[0];
    let n: usize = if first < 0x40 {
        1
    } else if first < 0x80 {
        2
    } else if first < 0xC0 {
        4
    } else {
        8
    };
    if b.len() < n {
        return None;
    }
    let mut word: Vec<u8> = Vec::new();
    word.push(first % 64);
    let tail = vstd::slice::slice_subrange(b, 1, n);
    text::append_bytes(&mut word, tail);
    proof {
        assert(word@ =~= seq![(b@[0] % 64) as u8] + b@.subrange(1, n as int));
        net::lemma_be_value_fits(word@);
    }
    let value: u128 = net::read_be(word.as_slice());
    Some((value as u64, n))
}

/// A multiple of the place value of the first byte changes that byte only.
proof fn lemma_tagged(v: nat, tag: nat, len: nat)
    requires
        len > 0,
        tag <= 192,
        v < 64 * vstd::arithmetic::power::pow(256, (len - 1) as nat),
    ensures
        net::be_bytes(v, len).len() == len,
        net::be_bytes(v, len)[0] < 64,
        net::be_bytes((v + tag * vstd::arithmetic::power::pow(256, (len - 1) as nat)) as nat, len)
            == net::be_bytes(v, len).update(0, (net::be_bytes(v, len)[0] + tag) as u8),
    decreases len,
{
    net::lemma_be_bytes_len(v, len);
    vstd::arithmetic::power::lemma_pow0(256);
    if len == 1 {
        reveal_with_fuel(net::be_bytes, 2);
        assert(net::be_bytes((v + tag) as nat, 1) =~= net::be_bytes(v, 1).update(
            0,
            (net::be_bytes(v, 1)[0] + tag) as u8,
        ));
    } else {
        let l1 = (len - 1) as nat;
        let p = vstd::arithmetic::power::pow(256, (len - 2) as nat);
        vstd::arithmetic::power::lemma_pow_adds(256, (len - 2) as nat, 1);
        vstd::arithmetic::power::lemma_pow1(256);
        assert(vstd::arithmetic::power::pow(256, l1) == p * 256);
        let q = tag * p;
        assert(tag * (p * 256) == 256 * q) by (nonlinear_arith)
            requires
                q == tag * p,
        ;
        vstd::arithmetic::power::lemma_pow_positive(256, (len - 2) as nat);
        assert(q >= 0) by (nonlinear_arith)
            requires
                q == tag * p,
                p > 0,
        ;
        let t = (v + tag * vstd::arithmetic::power::pow(256, l1)) as nat;
        assert(t == v + 256 * q);
        assert(t / 256 == v / 256 + q);
        assert(t % 256 == v % 256);
        lemma_tagged(v / 256, tag, l1);
        let b = net::be_bytes(v / 256, l1);
        net::lemma_be_bytes_len(v / 256, l1);
        assert(net::be_bytes(v, len) == b.push((v % 256) as u8));
        assert(net::be_bytes(t, len) == net::be_bytes(t / 256, l1).push((v % 256) as u8));
        assert(net::be_bytes(t, len) =~= net::be_bytes(v, len).update(
            0,
            (net::be_bytes(v, len)[0] + tag) as u8,
        ));
    }
}

/// The encoded number with the length taken out of its first byte is the
/// number itself.
proof fn lemma_varint_untagged(v: u64)
    requires
        v <= VARINT_MAX,
    ensures
        ({
            let w = varint_bytes(v);
            let n = w.len() as int;
            &&& n == 1 || n == 2 || n == 4 || n == 8
            &&& varint_len(w[0]) == n
            &&& seq![(w[0] % 64) as u8] + w.subrange(1, n) == net::be_bytes(v as nat, n as nat)
            &&& v < vstd::arithmetic::power::pow(256, n as nat)
        }),
{
    let w = varint_bytes(v);
    let (tag, len): (nat, nat) = if v < 64 {
        (0, 1)
    } else if v < 16384 {
        (0x40, 2)
    } else if v < 1_073_741_824 {
        (0x80, 4)
    } else {
        (0xC0, 8)
    };
    net::lemma_powers_of_256();
    vstd::arithmetic::power::lemma_pow0(256);
    vstd::arithmetic::power::lemma_pow_adds(256, 2, 1);
    vstd::arithmetic::power::lemma_pow_adds(256, 4, 2);
    vstd::arithmetic::power::lemma_pow_adds(256, 6, 1);
    lemma_tagged(v as nat, tag, len);
    let b = net::be_bytes(v as nat, len);
    assert(w == b.update(0, (b[0] + tag) as u8));
    assert(w[0] % 64 == b[0]);
    assert(seq![(w[0] % 64) as u8] + w.subrange(1, len as int) =~= b);
}

/// An integer that was written is read back, whatever follows it, for every
/// number that the encoding can hold.
pub proof fn law_varint_round_trip(v: u64, rest: Seq<u8>)
    requires
        v <= VARINT_MAX,
    ensures
        varint_at(varint_bytes(v) + rest) == Some((v as nat, varint_bytes(v).len() as int)),
{
    let w = varint_bytes(v);
    let n = w.len() as int;
    lemma_varint_untagged(v);
    net::lemma_be_round_trip(v as nat, n as nat);
    assert((w + rest).subrange(1, n) =~= w.subrange(1, n));
}

// ---------------------------------------------------------------------------
// Requests and answers
// ---------------------------------------------------------------------------

/// A request for a TCP stream: its number, the target as a text behind its
/// length, and no padding.
pub open spec fn request_bytes(addr: &str) -> Seq<u8> {
    varint_bytes(TCP_REQUEST_ID) + varint_bytes(addr.spec_bytes().len() as u64) + addr.spec_bytes()
        + varint_bytes(0)
}

/// The request for a TCP stream to a target.
pub fn build_tcp_request(addr: &str) -> (r: Vec<u8>)
    ensures
        r@ == request_bytes(addr),
{
    let mut out: Vec<u8> = Vec::new();
    let name = addr.as_bytes();
    push_varint(&mut out, TCP_REQUEST_ID);
    push_varint(&mut out, name.len() as u64);
    text::append_bytes(&mut out, name);
    push_varint(&mut out, 0);
    assert(out@ =~= request_bytes(addr));
    out
}

/// What the server's answer comes to so far.
#[derive(Debug)]
pub enum TcpResponse {
    /// More bytes are needed.
    More,
    /// The answer is complete and takes `len` bytes.
    Done { status: u8, message: String, len: usize },
    /// The message is longer than allowed.
    MessageTooLarge(u64),
    /// The padding is longer than allowed.
    PaddingTooLarge(u64),
}

/// What a server's answer comes to: a status, a message behind its length,
/// and padding behind its length.
pub open spec fn is_response(b: Seq<u8>, r: TcpResponse) -> bool {
    if b.len() == 0 {
        r is More
    } else {
        match varint_at(b.skip(1)) {
            None => r is More,
            Some((m, n)) => if m > HY2_MAX_TCP_RESPONSE_MSG_LEN {
                r == TcpResponse::MessageTooLarge(m as u64)
            } else if b.len() < 1 + n + m {
                r is More
            } else {
                match varint_at(b.skip(1 + n + m)) {
                    None => r is More,
                    Some((p, k)) => if p > HY2_MAX_PADDING_LEN {
                        r == TcpResponse::PaddingTooLarge(p as u64)
                    } else if b.len() < 1 + n + m + k + p {
                        r is More
                    } else {
                        r matches TcpResponse::Done { status, message, len } && status == b[0]
                            && message@ == text::lossy_text(b.subrange(1 + n, 1 + n + m)) && len
                            == 1 + n + m + k + p
                    },
                }
            },
        }
    }
}

/// What a server's answer comes to, as far as it has arrived.
pub fn read_tcp_response(b: &[u8]) -> (r: TcpResponse)
    ensures
        is_response(b@, r),
{
    if b.len() == 0 {
        return TcpResponse::More;
    }
    let rest = vstd::slice::slice_subrange(b, 1, b.len());
    assert(rest@ =~= b@.skip(1));
    let (m, n): (u64, usize) = match read_varint(rest) {
        Some(v) => v,
        None => {
            return TcpResponse::More;
        },
    };
    if m > HY2_MAX_TCP_RESPONSE_MSG_LEN {
        return TcpResponse::MessageTooLarge(m);
    }
    let msg_len: usize = m as usize;
    if b.len() - 1 - n < msg_len {
        return TcpResponse::More;
    }
    let at: usize = 1 + n + msg_len;
    let tail = vstd::slice::slice_subrange(b, at, b.len());
    assert(tail@ =~= b@.skip(at as int));
    let (p, k): (u64, usize) = match read_varint(tail) {
        Some(v) => v,
        None => {
            return TcpResponse::More;
        },
    };
    if p > HY2_MAX_PADDING_LEN {
        return TcpResponse::PaddingTooLarge(p);
    }
    let pad_len: usize = p as usize;
    if b.len() - at - k < pad_len {
        return TcpResponse::More;
    }
    let msg = vstd::slice::slice_subrange(b, 1 + n, at);
    TcpResponse::Done {
        status: b[0],
        message: text::utf8_lossy(msg),
        len: at + k + pad_len,
    }
}

/// How many bytes more an answer may need at once, so that nothing behind it
/// is taken from the stream: one, or the rest of the message or the padding.
pub open spec fn response_need(b: Seq<u8>) -> int {
    if b.len() == 0 {
        1
    } else {
        match varint_at(b.skip(1)) {
            None => 1,
            Some((m, n)) => if b.len() < 1 + n + m {
                1 + n + m - b.len()
            } else {
                match varint_at(b.skip(1 + n + m)) {
                    None => 1,
                    Some((p, k)) => 1 + n + m + k + p - b.len(),
                }
            },
        }
    }
}

/// The bytes that may be read next without taking what follows the answer.
pub fn bytes_needed(b: &[u8]) -> (r: usize)
    requires
        is_response(b@, TcpResponse::More),
    ensures
        r == response_need(b@),
        r > 0,
{
    if b.len() == 0 {
        return 1;
    }
    let rest = vstd::slice::slice_subrange(b, 1, b.len());
    assert(rest@ =~= b@.skip(1));
    let (m, n): (u64, usize) = match read_varint(rest) {
        Some(v) => v,
        None => {
            return 1;
        },
    };
    let msg_len: usize = m as usize;
    if b.len() - 1 - n < msg_len {
        return msg_len - (b.len() - 1 - n);
    }
    let at: usize = 1 + n + msg_len;
    let tail = vstd::slice::slice_subrange(b, at, b.len());
    assert(tail@ =~= b@.skip(at as int));
    match read_varint(tail) {
        Some(v) => {
            let pad_len: usize = v.0 as usize;
            pad_len - (b.len() - at - v.1)
        },
        None => 1,
    }
}

/// The answer as a server writes it.
pub open spec fn response_bytes(status: u8, message: Seq<u8>, padding: Seq<u8>) -> Seq<u8> {
    seq![status] + varint_bytes(message.len() as u64) + message + varint_bytes(
        padding.len() as u64,
    ) + padding
}

/// An answer within the limits is read in full, and nothing behind it is
/// taken: the message, however long, never stays in the stream.
pub proof fn law_response_is_read_in_full(
    status: u8,
    message: Seq<u8>,
    padding: Seq<u8>,
    rest: Seq<u8>,
    r: TcpResponse,
)
    requires
        message.len() <= HY2_MAX_TCP_RESPONSE_MSG_LEN,
        padding.len() <= HY2_MAX_PADDING_LEN,
        is_response(response_bytes(status, message, padding) + rest, r),
    ensures
        r matches TcpResponse::Done { status: s, message: m, len } && s == status && m@
            == text::lossy_text(message) && len == response_bytes(status, message, padding).len(),
{
    let vm = varint_bytes(message.len() as u64);
    let vp = varint_bytes(padding.len() as u64);
    let b = response_bytes(status, message, padding) + rest;
    assert(b.skip(1) =~= vm + (message + vp + padding + rest));
    law_varint_round_trip(message.len() as u64, message + vp + padding + rest);
    let n = vm.len() as int;
    let m = message.len() as int;
    assert(b.skip(1 + n + m) =~= vp + (padding + rest));
    law_varint_round_trip(padding.len() as u64, padding + rest);
    assert(b.subrange(1 + n, 1 + n + m) =~= message);
}

/// The text for a handshake with one address that took too long.
pub open spec fn timeout_text(o: Hysteria2Outbound, addr: Seq<char>, alpn: Seq<char>) -> Seq<char> {
    "Hysteria2 QUIC to "@ + o.server@ + ":"@ + text::decimal(o.port as nat) + " via "@ + addr
        + " alpn='"@ + alpn + "' timed out after 7s"@
}

impl Hysteria2Outbound {
    /// The text for a handshake with one address that took too long.
    pub fn timeout_message(&self, addr: &str, alpn: &str) -> (r: String)
        ensures
            r@ == timeout_text(*self, addr@, alpn@),
    {
        let mut out: Vec<char> = Vec::new();
        text::append_str(&mut out, "Hysteria2 QUIC to ");
        text::append_str(&mut out, self.server.as_str());
        text::append_str(&mut out, ":");
        text::append_chars(&mut out, text::decimal_text(self.port as u64).as_slice());
        text::append_str(&mut out, " via ");
        text::append_str(&mut out, addr);
        text::append_str(&mut out, " alpn='");
        text::append_str(&mut out, alpn);
        text::append_str(&mut out, "' timed out after 7s");
        assert(out@ =~= timeout_text(*self, addr@, alpn@));
        text::string_of(out.as_slice())
    }
}

/// What follows from a server's answer.
#[derive(Debug)]
pub enum StreamVerdict {
    /// The stream is open.
    Open,
    /// The server refused, with its message.
    Rejected(String),
}

/// The text for a stream that the server refused.
pub open spec fn rejected_text(addr: Seq<char>, message: Seq<char>) -> Seq<char> {
    "Hysteria2 TCP connect to "@ + addr + " rejected by server: "@ + message
}

/// What follows from a server's answer: the one error status refuses the
/// stream, any other opens it.
pub fn judge_response(addr: &str, status: u8, message: &str) -> (r: StreamVerdict)
    ensures
        is_stream_verdict(r, addr@, status, message@),
{
    if status != 1 {
        return StreamVerdict::Open;
    }
    let mut out: Vec<char> = Vec::new();
    text::append_str(&mut out, "Hysteria2 TCP connect to ");
    text::append_str(&mut out, addr);
    text::append_str(&mut out, " rejected by server: ");
    text::append_str(&mut out, message);
    assert(out@ =~= rejected_text(addr@, message@));
    StreamVerdict::Rejected(text::string_of(out.as_slice()))
}

/// Attempts to open a stream, since a connection may have died unnoticed.
pub const OPEN_ATTEMPTS: u8 = 2;

/// What follows from a stream that could not be opened.
#[derive(Debug)]
pub enum OpenFailure {
    /// Try again on a fresh connection.
    Retry,
    /// Give up with this error.
    GiveUp(String),
}

/// The text for a stream that could not be opened.
pub open spec fn open_failed_text(attempt: u8, error: Seq<char>) -> Seq<char> {
    "Hysteria2 open_bi failed (attempt "@ + text::decimal(attempt as nat) + "): "@ + error
}

/// The attempt with this number, counted from one, failed.
pub fn open_failed(attempt: u8, error: &str) -> (r: OpenFailure)
    ensures
        attempt < OPEN_ATTEMPTS ==> r is Retry,
        attempt >= OPEN_ATTEMPTS ==> (r matches OpenFailure::GiveUp(t) && t@ == open_failed_text(
            attempt,
            error@,
        )),
{
    if attempt < OPEN_ATTEMPTS {
        return OpenFailure::Retry;
    }
    let mut out: Vec<char> = Vec::new();
    text::append_str(&mut out, "Hysteria2 open_bi failed (attempt ");
    text::append_chars(&mut out, text::decimal_text(attempt as u64).as_slice());
    text::append_str(&mut out, "): ");
    text::append_str(&mut out, error);
    assert(out@ =~= open_failed_text(attempt, error@));
    OpenFailure::GiveUp(text::string_of(out.as_slice()))
}

/// The text for a client that the server did not accept.
pub open spec fn auth_failed_text(status: Seq<char>) -> Seq<char> {
    "Hysteria2 auth failed: server returned status "@ + status + " (expected 233)"@
}

/// What follows from the status with which the server answers a client, the
/// status also as the text that is shown for it.
pub fn judge_auth(status: u16, shown: &str) -> (r: Result<(), String>)
    ensures
        is_auth_verdict(r, status, shown@),
{
    if status == AUTH_OK_STATUS {
        return Ok(());
    }
    let mut out: Vec<char> = Vec::new();
    text::append_str(&mut out, "Hysteria2 auth failed: server returned status ");
    text::append_str(&mut out, shown);
    text::append_str(&mut out, " (expected 233)");
    assert(out@ =~= auth_failed_text(shown@));
    Err(text::string_of(out.as_slice()))
}

/// A number of one, two, four or eight bytes, as the two high bits of the first
/// byte say; the other bits are the number, the high byte first.
pub open spec fn quic_number(b: Seq<u8>) -> Option<(int, int)> {
    if b.len() >= 1 && b[0] / 64 == 0 {
        Some((b[0] as int, 1))
    } else if b.len() >= 2 && b[0] / 64 == 1 {
        Some((crate::proxy::address::word_at(b, 0) - 0x4000, 2))
    } else if b.len() >= 4 && b[0] / 64 == 2 {
        Some((crate::proxy::address::long_at(b, 0) - 0x8000_0000, 4))
    } else if b.len() >= 8 && b[0] / 64 == 3 {
        Some(
            (
                crate::proxy::address::long_at(b, 0) * 0x1_0000_0000 + crate::proxy::address::long_at(b, 4)
                    - 0xC000_0000_0000_0000,
                8,
            ),
        )
    } else {
        None
    }
}

/// Numbers are read by their two high bits.
pub proof fn law_numbers_are_read(b: Seq<u8>)
    ensures
        match varint_at(b) {
            Some((v, n)) => quic_number(b) == Some((v as int, n)),
            None => quic_number(b) is None,
        },
{
    if varint_at(b) is Some {
        let n = varint_len(b[0]);
        let s = seq![(b[0] % 64) as u8] + b.subrange(1, n);
        reveal_with_fuel(net::be_value, 2);
        if n == 1 {
            assert(s =~= seq![b[0]]);
            assert(s.drop_last() =~= seq![]);
            assert(net::be_value(s.drop_last()) == 0);
        } else if n == 2 {
            assert(s.subrange(0, 2) =~= s);
            crate::proxy::address::lemma_numbers(s, 0);
        } else if n == 4 {
            assert(s.subrange(0, 4) =~= s);
            crate::proxy::address::lemma_numbers(s, 0);
        } else {
            crate::proxy::address::lemma_two_longs(s);
        }
    }
}

/// A server reads a request by its parts: the number 1025, the length of the
/// target, the target, and no padding; and nothing stands behind it.
pub proof fn law_request_is_read_by_the_server(addr: &str)
    requires
        addr.spec_bytes().len() <= VARINT_MAX,
    ensures
        ({
            let b = request_bytes(addr);
            let n = addr.spec_bytes().len() as int;
            &&& quic_number(b) == Some((1025int, 2int))
            &&& quic_number(b.skip(2)) matches Some((m, k)) && m == n && b.len() == 2 + k + n + 1
                && b.subrange(2 + k, 2 + k + n) == addr.spec_bytes() && b[2 + k + n] == 0
        }),
{
    let b = request_bytes(addr);
    let name = addr.spec_bytes();
    let id = varint_bytes(TCP_REQUEST_ID);
    let len = varint_bytes(name.len() as u64);
    let pad = varint_bytes(0);
    net::lemma_be_bytes_len(0x401 + 0x4000, 2);
    net::lemma_be_bytes_len(0, 1);
    law_varint_round_trip(TCP_REQUEST_ID, len + name + pad);
    assert(b =~= id + (len + name + pad));
    assert(b.skip(2) =~= len + (name + pad));
    law_varint_round_trip(name.len() as u64, name + pad);
    law_numbers_are_read(b);
    law_numbers_are_read(b.skip(2));
    law_varint_round_trip(0, seq![]);
    assert(pad + seq![] =~= pad);
    law_numbers_are_read(pad);
    let k = len.len() as int;
    assert(b.subrange(2 + k, 2 + k + name.len()) =~= name);
    assert(b[2 + k + name.len() as int] == pad[0]);
}

/// What the status of the server's answer to the password comes to.
pub open spec fn is_auth_verdict(r: Result<(), String>, status: u16, shown: Seq<char>) -> bool {
    &&& r is Ok == (status == AUTH_OK_STATUS)
    &&& r matches Err(t) ==> t@ == auth_failed_text(shown)
}

/// What the status of the server's answer to a request comes to.
pub open spec fn is_stream_verdict(
    r: StreamVerdict,
    addr: Seq<char>,
    status: u8,
    message: Seq<char>,
) -> bool {
    &&& status == 1 ==> (r matches StreamVerdict::Rejected(t) && t@ == rejected_text(addr, message))
    &&& status != 1 ==> r is Open
}

/// The address and the protocol of an attempt, by their places in their lists.
pub open spec fn is_pair(r: (usize, usize), attempt: usize, alpns: usize) -> bool {
    &&& r.0 == attempt as int / alpns as int
    &&& r.1 == attempt as int % alpns as int
}

/// The password is accepted by one status alone, 233, and not by the 200 of an ordinary web
/// server.
pub proof fn law_only_one_status_is_welcome(r: Result<(), String>, status: u16, shown: Seq<char>)
    requires
        is_auth_verdict(r, status, shown),
    ensures
        r is Ok <==> 232 < status < 234,
{
}

/// A stream whose request the server answered with a zero is open, and one that it answered with
/// a one is not: the message of the server is then part of what is said.
pub proof fn law_server_opens_or_rejects(
    r: StreamVerdict,
    addr: Seq<char>,
    status: u8,
    message: Seq<char>,
)
    requires
        is_stream_verdict(r, addr, status, message),
    ensures
        status == 0 ==> r is Open,
        status == 1 ==> (r matches StreamVerdict::Rejected(t) && text::has_suffix(t@, message)),
{
    if status == 1 {
        let t = rejected_text(addr, message);
        assert(t.skip(t.len() - message.len()) =~= message);
    }
}

/// The attempts of a race go through every protocol at one address before the next address.
pub proof fn law_attempts_cover_every_pair(
    address: usize,
    alpn: usize,
    attempt: usize,
    alpns: usize,
    r: (usize, usize),
)
    requires
        alpn < alpns,
        attempt == address * alpns + alpn,
        is_pair(r, attempt, alpns),
    ensures
        r == (address, alpn),
{
    vstd::arithmetic::div_mod::lemma_fundamental_div_mod_converse(
        attempt as int,
        alpns as int,
        address as int,
        alpn as int,
    );
}

/// Where the working protocol is known, only the addresses are raced, or the only address is
/// tried twice; else every protocol is tried at every address.
pub proof fn law_known_protocol_saves_attempts(addresses: usize, alpns: usize)
    requires
        addresses * alpns <= usize::MAX,
    ensures
        plan_of(true, 1, alpns as int) == (ConnectPlan::Retry { attempts: 2 }),
        addresses != 1 ==> (plan_of(true, addresses, alpns as int) matches ConnectPlan::Race(race)
            && race.total == addresses && race.next == 0),
        plan_of(false, addresses, alpns as int) matches ConnectPlan::Race(race) && race.total
            == addresses * alpns && race.next == 0,
{
}

/// Never more is asked for than the answer still lacks, so that nothing behind it is taken.
pub proof fn law_nothing_behind_the_answer_is_taken(
    status: u8,
    message: Seq<u8>,
    padding: Seq<u8>,
    k: int,
)
    requires
        message.len() < 64,
        padding.len() < 64,
        0 <= k < response_bytes(status, message, padding).len(),
    ensures
        0 < response_need(response_bytes(status, message, padding).take(k)),
        k + response_need(response_bytes(status, message, padding).take(k)) <= response_bytes(
            status,
            message,
            padding,
        ).len(),
{
    let b = response_bytes(status, message, padding);
    let m = message.len();
    let p = padding.len();
    net::law_high_bytes_first(m, 1);
    net::law_high_bytes_first(p, 1);
    let part = b.take(k);
    assert(b.len() == 3 + m + p);
    assert(b[1] == m);
    assert(b[2 + m as int] == p);
    if k >= 2 {
        let x = part.skip(1);
        assert(x[0] == b[1]);
        let one = seq![(x[0] % 64) as u8] + x.subrange(1, 1);
        assert(one =~= seq![x[0]]);
        assert(one.drop_last() =~= Seq::<u8>::empty());
        reveal_with_fuel(net::be_value, 2);
        assert(varint_at(x) == Some((m, 1int)));
        if k >= 3 + m {
            let y = part.skip(2 + m as int);
            assert(y[0] == b[2 + m as int]);
            let two = seq![(y[0] % 64) as u8] + y.subrange(1, 1);
            assert(two =~= seq![y[0]]);
            assert(two.drop_last() =~= Seq::<u8>::empty());
            assert(varint_at(y) == Some((p, 1int)));
        } else if k == 2 + m {
            assert(part.skip(2 + m as int).len() == 0);
        }
    }
}

} // verus!
