//! How fast a node is, and why it does not answer.

use vstd::prelude::*;

use crate::proxy::transport;
use crate::text;

verus! {

broadcast use {
    vstd::seq::group_seq_axioms,
    vstd::slice::group_slice_axioms,
    vstd::string::group_string_axioms,
    vstd::std_specs::vec::group_vec_axioms,
};

/// Why a node does not answer.
#[derive(Debug, Clone, Copy, PartialEq, Eq, Structural)]
pub enum ProbeFailureKind {
    /// Nothing came in time.
    Timeout,
    /// The server could not be reached.
    Unreachable,
    /// The server was reached, and no secure connection came about.
    Tls,
    /// The server answered, and not as the protocol wants it.
    Protocol,
    /// Anything else.
    Other,
}

impl ProbeFailureKind {
    /// The word for logs.
    pub fn label(&self) -> (r: &'static str)
        ensures
            r@ == (match *self {
                ProbeFailureKind::Timeout => "timeout"@,
                ProbeFailureKind::Unreachable => "unreachable"@,
                ProbeFailureKind::Tls => "tls handshake failed"@,
                ProbeFailureKind::Protocol => "protocol error"@,
                ProbeFailureKind::Other => "unknown error"@,
            }),
    {
        match self {
            ProbeFailureKind::Timeout => "timeout",
            ProbeFailureKind::Unreachable => "unreachable",
            ProbeFailureKind::Tls => "tls handshake failed",
            ProbeFailureKind::Protocol => "protocol error",
            ProbeFailureKind::Other => "unknown error",
        }
    }

    /// The word for the user.
    pub fn badge_label(&self) -> (r: &'static str)
        ensures
            r@ == (match *self {
                ProbeFailureKind::Timeout => "Timeout"@,
                ProbeFailureKind::Unreachable => "Server unreachable"@,
                ProbeFailureKind::Tls => "TLS handshake failed"@,
                ProbeFailureKind::Protocol => "Protocol error"@,
                ProbeFailureKind::Other => "Unknown error"@,
            }),
    {
        match self {
            ProbeFailureKind::Timeout => "Timeout",
            ProbeFailureKind::Unreachable => "Server unreachable",
            ProbeFailureKind::Tls => "TLS handshake failed",
            ProbeFailureKind::Protocol => "Protocol error",
            ProbeFailureKind::Other => "Unknown error",
        }
    }
}

/// What the system says of an error.
#[derive(Debug, Clone, Copy, PartialEq, Eq, Structural)]
pub enum IoKind {
    TimedOut,
    ConnectionRefused,
    ConnectionReset,
    ConnectionAborted,
    NotConnected,
    AddrNotAvailable,
    Other,
}

/// One link in the chain of causes of an error.
#[derive(Debug)]
pub struct Cause {
    /// What the system says, where the system says it.
    pub io_kind: Option<IoKind>,
    pub message: String,
}

/// What the kind of an error of the system says.
pub open spec fn kind_of_io(kind: Option<IoKind>) -> Option<ProbeFailureKind> {
    match kind {
        Some(IoKind::TimedOut) => Some(ProbeFailureKind::Timeout),
        Some(IoKind::Other) => None,
        Some(_) => Some(ProbeFailureKind::Unreachable),
        None => None,
    }
}

/// The words of an error that came too late.
pub open spec fn says_timeout(m: Seq<char>) -> bool {
    ||| text::contains_text(m, "timed out"@)
    ||| text::contains_text(m, "timeout"@)
    ||| text::contains_text(m, "deadline"@)
}

/// The words of a handshake that failed.
pub open spec fn says_tls(m: Seq<char>) -> bool {
    ||| text::contains_text(m, "tls"@)
    ||| text::contains_text(m, "certificate"@)
    ||| text::contains_text(m, "reality"@)
    ||| text::contains_text(m, "quic"@)
}

/// The words of a server that is not there.
pub open spec fn says_unreachable(m: Seq<char>) -> bool {
    ||| text::contains_text(m, "refused"@)
    ||| text::contains_text(m, "unreachable"@)
    ||| text::contains_text(m, "no route"@)
    ||| text::contains_text(m, "reset by peer"@)
    ||| text::contains_text(m, "dns"@)
    ||| text::contains_text(m, "failed to lookup"@)
    ||| text::contains_text(m, "name or service"@)
    ||| text::contains_text(m, "nodename nor servname"@)
}

/// The words of an answer that the protocol does not know.
pub open spec fn says_protocol(m: Seq<char>) -> bool {
    ||| text::contains_text(m, "auth"@)
    ||| text::contains_text(m, "protocol"@)
    ||| text::contains_text(m, "unexpected response"@)
    ||| text::contains_text(m, "invalid response"@)
}

/// What the words of an error, in lower case, say.
pub open spec fn kind_of_words(m: Seq<char>) -> Option<ProbeFailureKind> {
    if says_timeout(m) {
        Some(ProbeFailureKind::Timeout)
    } else if says_tls(m) {
        Some(ProbeFailureKind::Tls)
    } else if says_unreachable(m) {
        Some(ProbeFailureKind::Unreachable)
    } else if says_protocol(m) {
        Some(ProbeFailureKind::Protocol)
    } else {
        None
    }
}

/// What one cause says: the system first, then the words.
pub open spec fn kind_of_cause(kind: Option<IoKind>, message: Seq<char>) -> Option<
    ProbeFailureKind,
> {
    match kind_of_io(kind) {
        Some(k) => Some(k),
        None => kind_of_words(text::folded(message)),
    }
}

/// What the system says in a chain of causes: the first error of the system
/// whose kind says anything.
pub open spec fn io_of_chain(chain: Seq<Cause>) -> Option<ProbeFailureKind>
    decreases chain.len(),
{
    if chain.len() == 0 {
        None
    } else {
        match kind_of_io(chain[0].io_kind) {
            Some(k) => Some(k),
            None => io_of_chain(chain.drop_first()),
        }
    }
}

/// What the words in a chain of causes say: the first that say anything.
pub open spec fn words_of_chain(chain: Seq<Cause>) -> Option<ProbeFailureKind>
    decreases chain.len(),
{
    if chain.len() == 0 {
        None
    } else {
        match kind_of_words(text::folded(chain[0].message@)) {
            Some(k) => Some(k),
            None => words_of_chain(chain.drop_first()),
        }
    }
}

/// What a chain of causes says: what the system says anywhere in it, and only
/// where it says nothing the words.
pub open spec fn kind_of_chain(chain: Seq<Cause>) -> ProbeFailureKind {
    match io_of_chain(chain) {
        Some(k) => k,
        None => match words_of_chain(chain) {
            Some(k) => k,
            None => ProbeFailureKind::Other,
        },
    }
}

fn classify_words(m: &[char]) -> (r: Option<ProbeFailureKind>)
    ensures
        r == kind_of_words(m@),
{
    if text::contains_str(m, "timed out") || text::contains_str(m, "timeout") || text::contains_str(
        m,
        "deadline",
    ) {
        return Some(ProbeFailureKind::Timeout);
    }
    if text::contains_str(m, "tls") || text::contains_str(m, "certificate") || text::contains_str(
        m,
        "reality",
    ) || text::contains_str(m, "quic") {
        return Some(ProbeFailureKind::Tls);
    }
    if text::contains_str(m, "refused") || text::contains_str(m, "unreachable")
        || text::contains_str(m, "no route") || text::contains_str(m, "reset by peer")
        || text::contains_str(m, "dns") || text::contains_str(m, "failed to lookup")
        || text::contains_str(m, "name or service") || text::contains_str(
        m,
        "nodename nor servname",
    ) {
        return Some(ProbeFailureKind::Unreachable);
    }
    if text::contains_str(m, "auth") || text::contains_str(m, "protocol") || text::contains_str(
        m,
        "unexpected response",
    ) || text::contains_str(m, "invalid response") {
        return Some(ProbeFailureKind::Protocol);
    }
    None
}

fn classify_io(chain: &[Cause]) -> (r: Option<ProbeFailureKind>)
    ensures
        r == io_of_chain(chain@),
{
    let mut i: usize = 0;
    assert(chain@.skip(0) =~= chain@);
    while i < chain.len()
        invariant
            i <= chain@.len(),
            io_of_chain(chain@) == io_of_chain(chain@.skip(i as int)),
        decreases chain@.len() - i,
    {
        assert(chain@.skip(i as int)[0] == chain@[i as int]);
        assert(chain@.skip(i as int).drop_first() =~= chain@.skip(i + 1));
        match chain[i].io_kind {
            Some(IoKind::TimedOut) => {
                return Some(ProbeFailureKind::Timeout);
            },
            Some(IoKind::Other) => {},
            Some(_) => {
                return Some(ProbeFailureKind::Unreachable);
            },
            None => {},
        }
        i = i + 1;
    }
    None
}

/// What a chain of causes, outermost first, says of a node.
pub fn classify_probe_error(chain: &[Cause]) -> (r: ProbeFailureKind)
    ensures
        r == kind_of_chain(chain@),
{
    if let Some(kind) = classify_io(chain) {
        return kind;
    }
    let mut i: usize = 0;
    assert(chain@.skip(0) =~= chain@);
    while i < chain.len()
        invariant
            i <= chain@.len(),
            io_of_chain(chain@) is None,
            words_of_chain(chain@) == words_of_chain(chain@.skip(i as int)),
        decreases chain@.len() - i,
    {
        assert(chain@.skip(i as int)[0] == chain@[i as int]);
        assert(chain@.skip(i as int).drop_first() =~= chain@.skip(i + 1));
        let words = text::fold(chain[i].message.as_str());
        if let Some(kind) = classify_words(text::chars_of(words.as_str()).as_slice()) {
            return kind;
        }
        i = i + 1;
    }
    ProbeFailureKind::Other
}

proof fn lemma_io_of_chain(chain: Seq<Cause>)
    ensures
        io_of_chain(chain) is None <==> forall|i: int|
            0 <= i < chain.len() ==> kind_of_io((#[trigger] chain[i]).io_kind) is None,
    decreases chain.len(),
{
    if chain.len() > 0 {
        let t = chain.drop_first();
        lemma_io_of_chain(t);
        if io_of_chain(chain) is None {
            assert forall|i: int| 0 <= i < chain.len() implies kind_of_io(
                (#[trigger] chain[i]).io_kind,
            ) is None by {
                if i > 0 {
                    assert(t[i - 1] == chain[i]);
                }
            }
        } else if kind_of_io(chain[0].io_kind) is None {
            let j = choose|j: int|
                0 <= j < t.len() && kind_of_io((#[trigger] t[j]).io_kind) is Some;
            assert(chain[j + 1] == t[j]);
        }
    }
}

/// A handshake that never ended counts as late, whatever its words name
/// besides, where the system says nothing.
pub proof fn law_late_beats_all_words(chain: Seq<Cause>)
    requires
        chain.len() > 0,
        forall|i: int|
            0 <= i < chain.len() ==> kind_of_io((#[trigger] chain[i]).io_kind) is None,
        says_timeout(text::folded(chain[0].message@)),
    ensures
        kind_of_chain(chain) == ProbeFailureKind::Timeout,
{
    lemma_io_of_chain(chain);
}

/// The system is more reliable than words: where the kind of an error says
/// something, the words of no cause matter.
pub proof fn law_system_beats_all_words(chain: Seq<Cause>, other: Seq<Cause>)
    requires
        chain.len() == other.len(),
        forall|i: int|
            0 <= i < chain.len() ==> (#[trigger] chain[i]).io_kind == other[i].io_kind,
        exists|i: int| 0 <= i < chain.len() && kind_of_io((#[trigger] chain[i]).io_kind) is Some,
    ensures
        kind_of_chain(chain) == kind_of_chain(other),
    decreases chain.len(),
{
    assert(chain[0].io_kind == other[0].io_kind);
    if kind_of_io(chain[0].io_kind) is None {
        let t = chain.drop_first();
        let u = other.drop_first();
        assert forall|i: int| 0 <= i < t.len() implies (#[trigger] t[i]).io_kind == u[i].io_kind by {
            assert(t[i] == chain[i + 1]);
        }
        let j = choose|j: int|
            0 <= j < chain.len() && kind_of_io((#[trigger] chain[j]).io_kind) is Some;
        assert(t[j - 1] == chain[j]);
        law_system_beats_all_words(t, u);
        lemma_io_of_chain(t);
        lemma_io_of_chain(u);
        assert(u[j - 1].io_kind == t[j - 1].io_kind);
    }
}

/// A context without words of its own leaves the kind to the cause below.
pub proof fn law_context_is_transparent(outer: Cause, chain: Seq<Cause>)
    requires
        kind_of_cause(outer.io_kind, outer.message@) is None,
    ensures
        kind_of_chain(seq![outer] + chain) == kind_of_chain(chain),
{
    assert((seq![outer] + chain).drop_first() =~= chain);
}

// ---------------------------------------------------------------------------
// Tests of speed
// ---------------------------------------------------------------------------

/// What a test of a node found.
#[derive(Debug, Clone)]
pub struct SpeedTestResult {
    /// Milliseconds until the connection stood.
    pub latency_ms: u32,
    /// Kilobytes in a second, if that could be measured.
    pub download_kbps: Option<u32>,
}

/// The host of the download.
pub const SPEED_HOST: &'static str = "speed.cloudflare.com";

/// The request for the download.
pub const SPEED_REQUEST: &'static str =
    "GET /__down?bytes=1048576 HTTP/1.1\r\nHost: speed.cloudflare.com\r\nConnection: close\r\n\r\n";

/// The host of a quick test.
pub const LATENCY_HOST: &'static str = "www.gstatic.com";

/// The request of a quick test.
pub const LATENCY_REQUEST: &'static str =
    "HEAD / HTTP/1.1\r\nHost: www.gstatic.com\r\nConnection: close\r\n\r\n";

/// The request of a test over HTTP.
pub const PROBE_REQUEST: &'static str =
    "GET /generate_204 HTTP/1.1\r\nHost: www.gstatic.com\r\nConnection: close\r\n\r\n";

/// The text for a connection that took too long.
pub const CONNECT_TIMED_OUT: &'static str = "connection timed out";

/// The text for a request that could not be sent in time.
pub const WRITE_TIMED_OUT: &'static str = "probe write timed out";

/// Enough came for a speed to be named.
pub fn download_counts(total_bytes: u64, elapsed_ms: u128) -> (r: bool)
    ensures
        r == (total_bytes > 100 && elapsed_ms > 0),
{
    total_bytes > 100 && elapsed_ms > 0
}

/// The text for a server that did not answer in time.
pub open spec fn tcp_probe_timeout_text(server: Seq<char>, port: u16, secs: u64) -> Seq<char> {
    "TCP connect to "@ + transport::host_port_text(server, port) + " timed out ("@ + text::decimal(
        secs as nat,
    ) + "s)"@
}

/// The text for a server that did not answer in time.
pub fn tcp_probe_timeout_message(server: &str, port: u16, secs: u64) -> (r: String)
    ensures
        r@ == tcp_probe_timeout_text(server@, port, secs),
{
    let mut out: Vec<char> = Vec::new();
    text::append_str(&mut out, "TCP connect to ");
    text::append_str(&mut out, transport::format_host_port(server, port).as_str());
    text::append_str(&mut out, " timed out (");
    text::append_chars(&mut out, text::decimal_text(secs).as_slice());
    text::append_str(&mut out, "s)");
    assert(out@ =~= tcp_probe_timeout_text(server@, port, secs));
    text::string_of(out.as_slice())
}

/// Whole milliseconds between two moments in nanoseconds, in 32 bits.
pub open spec fn elapsed_millis(started: u64, now: u64) -> u32 {
    if now <= started {
        0
    } else {
        ((now - started) / 1_000_000 % 0x1_0000_0000) as u32
    }
}

/// Whole milliseconds between two moments in nanoseconds, in 32 bits.
pub fn millis_since(started: u64, now: u64) -> (r: u32)
    ensures
        r == elapsed_millis(started, now),
{
    if now <= started {
        0
    } else {
        ((now - started) / 1_000_000 % 0x1_0000_0000) as u32
    }
}

// ---------------------------------------------------------------------------
// The test over HTTP
// ---------------------------------------------------------------------------

/// Nanoseconds for the first connection, which is not measured: half of what
/// the whole may take, and between two and five seconds.
pub open spec fn warmup_nanos(timeout_secs: u64) -> nat {
    let half = timeout_secs as nat * 1_000_000_000 / 2;
    if half < 2_000_000_000 {
        2_000_000_000
    } else if half > 5_000_000_000 {
        5_000_000_000
    } else {
        half
    }
}

/// Nanoseconds for the first connection, which is not measured.
pub fn warmup_budget(timeout_secs: u64) -> (r: u64)
    ensures
        r == warmup_nanos(timeout_secs),
{
    let half: u128 = timeout_secs as u128 * 1_000_000_000 / 2;
    if half < 2_000_000_000 {
        2_000_000_000
    } else if half > 5_000_000_000 {
        5_000_000_000
    } else {
        half as u64
    }
}

/// The errors that no other target would avoid.
pub open spec fn is_fatal(message: Seq<char>) -> bool {
    ||| text::contains_text(message, "REALITY"@)
    ||| text::contains_text(message, "TLS"@)
    ||| text::contains_text(message, "handshake"@)
    ||| text::contains_text(message, "authentication"@)
    ||| text::contains_text(message, "Ed25519"@)
}

/// The targets of the test, in turn.
pub open spec fn target_host(i: int) -> Seq<char> {
    if i == 0 {
        "www.gstatic.com"@
    } else if i == 1 {
        "cp.cloudflare.com"@
    } else {
        "dns.google"@
    }
}

/// The test of a node over HTTP: one deadline for all that is measured.
pub struct LatencyProbe {
    started: u64,
    deadline: u128,
    next: usize,
    last_error: Option<String>,
}

/// A test as its contracts speak of it.
#[verifier::ext_equal]
pub struct ProbeModel {
    /// When the test began, in nanoseconds.
    pub started: u64,
    /// When it must be over, in nanoseconds.
    pub deadline: nat,
    /// Targets that were tried or given up.
    pub next: nat,
    pub last_error: Option<Seq<char>>,
}

/// What is left until the deadline.
pub open spec fn remaining(deadline: nat, now: u64) -> nat {
    if now as nat >= deadline {
        0
    } else {
        (deadline - now) as nat
    }
}

/// What comes next in a test.
#[derive(Debug)]
pub enum ConnectStep {
    /// The target is to be connected to, within the budget in nanoseconds.
    Connect { host: &'static str, port: u16, budget: u128 },
    /// The test failed, for this reason.
    GiveUp(String),
}

impl View for LatencyProbe {
    type V = ProbeModel;

    closed spec fn view(&self) -> ProbeModel {
        ProbeModel {
            started: self.started,
            deadline: self.deadline as nat,
            next: self.next as nat,
            last_error: match self.last_error {
                Some(e) => Some(e@),
                None => None,
            },
        }
    }
}

/// The test can go on with another target.
pub open spec fn can_try(m: ProbeModel, now: u64) -> bool {
    m.next < 3 && remaining(m.deadline, now) >= 250_000_000
}

/// A test after a step.
pub open spec fn stepped(m: ProbeModel, now: u64) -> ProbeModel {
    if can_try(m, now) {
        ProbeModel { next: m.next + 1, ..m }
    } else {
        m
    }
}

/// A test after a connection that failed.
pub open spec fn failed(m: ProbeModel, message: Seq<char>) -> ProbeModel {
    ProbeModel {
        next: if is_fatal(message) {
            3
        } else {
            m.next
        },
        last_error: Some(message),
        ..m
    }
}

impl LatencyProbe {
    /// A test that begins, after the first connection.
    pub fn new(now: u64, timeout_secs: u64) -> (r: Self)
        ensures
            r@ == (ProbeModel {
                started: now,
                deadline: now as nat + timeout_secs as nat * 1_000_000_000,
                next: 0,
                last_error: None,
            }),
    {
        LatencyProbe {
            started: now,
            deadline: now as u128 + timeout_secs as u128 * 1_000_000_000,
            next: 0,
            last_error: None,
        }
    }

    fn remaining(&self, now: u64) -> (r: u128)
        ensures
            r == remaining(self@.deadline, now),
    {
        if now as u128 >= self.deadline {
            0
        } else {
            self.deadline - now as u128
        }
    }

    /// What comes next: another target while there is one and there is time,
    /// or the last error.
    pub fn step(&mut self, now: u64) -> (r: ConnectStep)
        ensures
            final(self)@ == stepped(old(self)@, now),
            is_connect_step(old(self)@, now, r),
    {
        let budget: u128 = self.remaining(now);
        if self.next < 3 && budget >= 250_000_000 {
            let host: &'static str = if self.next == 0 {
                "www.gstatic.com"
            } else if self.next == 1 {
                "cp.cloudflare.com"
            } else {
                "dns.google"
            };
            self.next = self.next + 1;
            return ConnectStep::Connect { host, port: 80, budget };
        }
        ConnectStep::GiveUp(
            match &self.last_error {
                Some(e) => e.clone(),
                None => text::string_of(text::chars_of(CONNECT_TIMED_OUT).as_slice()),
            },
        )
    }

    /// A connection failed. Some errors end the test.
    pub fn on_connect_failed(&mut self, message: &str)
        ensures
            final(self)@ == failed(old(self)@, message@),
    {
        let m = text::chars_of(message);
        if text::contains_str(m.as_slice(), "REALITY") || text::contains_str(m.as_slice(), "TLS")
            || text::contains_str(m.as_slice(), "handshake") || text::contains_str(
            m.as_slice(),
            "authentication",
        ) || text::contains_str(m.as_slice(), "Ed25519") {
            self.next = 3;
        }
        self.last_error = Some(text::string_of(m.as_slice()));
    }

    /// A connection took too long.
    pub fn on_connect_timeout(&mut self)
        ensures
            final(self)@ == (ProbeModel { last_error: Some(CONNECT_TIMED_OUT@), ..old(self)@ }),
    {
        self.last_error = Some(text::string_of(text::chars_of(CONNECT_TIMED_OUT).as_slice()));
    }

    /// Nanoseconds to send the request, if there are enough.
    pub fn write_budget(&self, now: u64) -> (r: Result<u64, &'static str>)
        ensures
            is_write_budget(self@, now, r),
    {
        let rem: u128 = self.remaining(now);
        let budget: u64 = if rem > 5_000_000_000 {
            5_000_000_000
        } else {
            rem as u64
        };
        if budget < 100_000_000 {
            Err(WRITE_TIMED_OUT)
        } else {
            Ok(budget)
        }
    }

    /// Nanoseconds to wait for the answer, if it is worth it.
    pub fn read_budget(&self, now: u64) -> (r: Option<u64>)
        ensures
            is_read_budget(self@, now, r),
    {
        let rem: u128 = self.remaining(now);
        let budget: u64 = if rem > 3_000_000_000 {
            3_000_000_000
        } else {
            rem as u64
        };
        if budget < 50_000_000 {
            None
        } else {
            Some(budget)
        }
    }

    /// What the test found, in milliseconds.
    pub fn latency_ms(&self, now: u64) -> (r: u32)
        ensures
            r == elapsed_millis(self@.started, now),
    {
        millis_since(self.started, now)
    }
}

/// No connection is given time past the deadline.
pub proof fn law_deadline_is_kept(m: ProbeModel, now: u64)
    requires
        can_try(m, now),
    ensures
        now + remaining(m.deadline, now) == m.deadline,
{
}

/// After an error that no other target would avoid, none is tried.
pub proof fn law_fatal_error_ends_the_test(m: ProbeModel, message: Seq<char>, now: u64)
    requires
        is_fatal(message),
    ensures
        !can_try(failed(m, message), now),
{
}

/// Every step that tries a target uses one up, and no error gives one back:
/// a test ends after three.
pub proof fn law_test_ends(m: ProbeModel, message: Seq<char>, now: u64)
    requires
        m.next <= 3,
    ensures
        can_try(m, now) ==> stepped(m, now).next == m.next + 1 && stepped(m, now).next <= 3,
        m.next <= failed(m, message).next <= 3,
        m.next == 3 ==> !can_try(m, now),
{
}

/// The first cause of which the system says something decides: an error that
/// came too late is late, and a connection that was refused, reset, aborted or
/// never made, or an address that is not there, means that the server cannot
/// be reached.
pub proof fn law_first_word_of_the_system_decides(chain: Seq<Cause>, i: int)
    requires
        0 <= i < chain.len(),
        chain[i].io_kind is Some,
        chain[i].io_kind != Some(IoKind::Other),
        forall|k: int|
            0 <= k < i ==> (#[trigger] chain[k]).io_kind is None || chain[k].io_kind == Some(
                IoKind::Other,
            ),
    ensures
        kind_of_chain(chain) == (if chain[i].io_kind == Some(IoKind::TimedOut) {
            ProbeFailureKind::Timeout
        } else {
            ProbeFailureKind::Unreachable
        }),
        io_of_chain(chain) is Some,
    decreases i,
{
    if i > 0 {
        let t = chain.drop_first();
        assert(chain[0].io_kind is None || chain[0].io_kind == Some(IoKind::Other));
        assert forall|k: int| 0 <= k < i - 1 implies (#[trigger] t[k]).io_kind is None
            || t[k].io_kind == Some(IoKind::Other) by {
            assert(t[k] == chain[k + 1]);
        }
        law_first_word_of_the_system_decides(t, i - 1);
    }
}

/// Where the system says nothing, words decide, in any case of letters: those
/// of lateness before those of TLS, those before the ones that speak of a
/// server that cannot be reached, those before the ones of protocols; and an
/// error without such words is of no known kind.
pub proof fn law_words_decide_in_order(cause: Cause)
    requires
        cause.io_kind is None || cause.io_kind == Some(IoKind::Other),
    ensures
        ({
            let m = text::folded(cause.message@);
            let says = |w: Seq<char>| text::contains_text(m, w);
            let late = says("timed out"@) || says("timeout"@) || says("deadline"@);
            let tls = says("tls"@) || says("certificate"@) || says("reality"@) || says("quic"@);
            let away = says("refused"@) || says("unreachable"@) || says("no route"@) || says(
                "reset by peer"@,
            ) || says("dns"@) || says("failed to lookup"@) || says("name or service"@) || says(
                "nodename nor servname"@,
            );
            let odd = says("auth"@) || says("protocol"@) || says("unexpected response"@) || says(
                "invalid response"@,
            );
            kind_of_chain(seq![cause]) == (if late {
                ProbeFailureKind::Timeout
            } else if tls {
                ProbeFailureKind::Tls
            } else if away {
                ProbeFailureKind::Unreachable
            } else if odd {
                ProbeFailureKind::Protocol
            } else {
                ProbeFailureKind::Other
            })
        }),
{
    let chain = seq![cause];
    assert(chain.drop_first() =~= seq![]);
    reveal_with_fuel(io_of_chain, 2);
    reveal_with_fuel(words_of_chain, 2);
}

/// A latency is the whole milliseconds since the test began.
pub proof fn law_latency_is_the_time_that_passed(started: u64, millis: u32, rest: u64)
    requires
        rest < 1_000_000,
        started + millis * 1_000_000 + rest <= u64::MAX,
    ensures
        elapsed_millis(started, (started + millis * 1_000_000 + rest) as u64) == millis,
{
    let now = started + millis * 1_000_000 + rest;
    assert((millis * 1_000_000 + rest) / 1_000_000 == millis);
    assert(millis as int % 0x1_0000_0000 == millis);
    assert(now - started == millis * 1_000_000 + rest);
}

/// A warm-up gets half of the time, but no less than two seconds and no more
/// than five.
pub proof fn law_warmup_gets_half(timeout_secs: u64)
    ensures
        timeout_secs <= 4 ==> warmup_nanos(timeout_secs) == 2_000_000_000,
        4 <= timeout_secs <= 10 ==> 2 * warmup_nanos(timeout_secs) == timeout_secs * 1_000_000_000,
        timeout_secs >= 10 ==> warmup_nanos(timeout_secs) == 5_000_000_000,
{
}

/// A target is tried only where a quarter of a second is left, and three are
/// tried at most.
pub proof fn law_targets_need_time(m: ProbeModel, now: u64)
    ensures
        can_try(m, now) == (m.next < 3 && now + 250_000_000 <= m.deadline),
        target_host(0) == "www.gstatic.com"@,
        target_host(1) == "cp.cloudflare.com"@,
        target_host(2) == "dns.google"@,
{
}

/// What comes next in a test.
pub open spec fn is_connect_step(m: ProbeModel, now: u64, r: ConnectStep) -> bool {
    match r {
        ConnectStep::Connect { host, port, budget } => {
            &&& can_try(m, now)
            &&& host@ == target_host(m.next as int)
            &&& port == 80
            &&& budget == remaining(m.deadline, now)
        },
        ConnectStep::GiveUp(e) => {
            &&& !can_try(m, now)
            &&& e@ == (match m.last_error {
                Some(t) => t,
                None => CONNECT_TIMED_OUT@,
            })
        },
    }
}

/// The time for the request.
pub open spec fn is_write_budget(m: ProbeModel, now: u64, r: Result<u64, &'static str>) -> bool {
    let rem = remaining(m.deadline, now);
    let budget = if rem > 5_000_000_000 {
        5_000_000_000
    } else {
        rem
    };
    if budget < 100_000_000 {
        r matches Err(e) && e@ == WRITE_TIMED_OUT@
    } else {
        r matches Ok(b) && b == budget
    }
}

/// The time for the answer.
pub open spec fn is_read_budget(m: ProbeModel, now: u64, r: Option<u64>) -> bool {
    let rem = remaining(m.deadline, now);
    let budget = if rem > 3_000_000_000 {
        3_000_000_000
    } else {
        rem
    };
    if budget < 50_000_000 {
        r is None
    } else {
        r matches Some(b) && b == budget
    }
}

/// The targets are tried one after the other, at their web ports, each with all the time that is
/// left; in the end the last error is what is said.
pub proof fn law_targets_are_tried_in_turn(m: ProbeModel, now: u64, r: ConnectStep)
    requires
        is_connect_step(m, now, r),
    ensures
        m.next < 3 && now + 250_000_000 <= m.deadline ==> (r matches ConnectStep::Connect {
            host,
            port,
            budget,
        } && port == 80 && now + budget == m.deadline && stepped(m, now).next == m.next + 1 && host@
            == (if m.next == 0 {
            "www.gstatic.com"@
        } else if m.next == 1 {
            "cp.cloudflare.com"@
        } else {
            "dns.google"@
        })),
        m.next >= 3 || now + 250_000_000 > m.deadline ==> (r matches ConnectStep::GiveUp(e) && (
        m.last_error is Some ==> e@ == m.last_error->0)),
{
}

/// The request and the answer get what is left of the time, but at most five and three seconds,
/// and nothing where less than a tenth or a twentieth of a second is left.
pub proof fn law_time_is_shared_out(
    m: ProbeModel,
    now: u64,
    w: Result<u64, &'static str>,
    r: Option<u64>,
)
    requires
        is_write_budget(m, now, w),
        is_read_budget(m, now, r),
    ensures
        w is Ok == (now + 100_000_000 <= m.deadline),
        r is Some == (now + 50_000_000 <= m.deadline),
        w matches Ok(b) ==> b <= 5_000_000_000 && now + b <= m.deadline && (b == 5_000_000_000
            || now + b == m.deadline),
        r matches Some(b) ==> b <= 3_000_000_000 && now + b <= m.deadline && (b == 3_000_000_000
            || now + b == m.deadline),
{
}

} // verus!
