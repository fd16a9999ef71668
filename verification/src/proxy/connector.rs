//! Outbounds: the ways to reach a target.

use std::sync::Arc;
use vstd::prelude::*;

use crate::config;
use crate::config::TlsConfig;
use crate::proxy::hysteria2::Hysteria2Outbound;
use crate::proxy::shadow_tls::ShadowTlsOutbound;
use crate::proxy::ss::SsOutbound;
use crate::proxy::trojan::TrojanOutbound;
use crate::proxy::vless::VlessOutbound;
use crate::proxy::vmess::VMessOutbound;
use crate::text;

verus! {

broadcast use {
    vstd::seq::group_seq_axioms,
    vstd::slice::group_slice_axioms,
    vstd::string::group_string_axioms,
    vstd::std_specs::vec::group_vec_axioms,
};

/// Seconds for a connection through an outbound, handshakes and retries
/// included.
pub const UPSTREAM_CONNECT_TIMEOUT_SECS: u64 = 10;

/// Seconds for a connection that uses no proxy.
pub const DIRECT_CONNECT_TIMEOUT_SECS: u64 = 10;

/// The text for a connection that took too long.
pub open spec fn upstream_timeout_text(host: Seq<char>, port: u16) -> Seq<char> {
    "upstream connect to "@ + host + ":"@ + text::decimal(port as nat) + " timed out after 10s"@
}

/// The text for a connection that took too long.
pub fn upstream_timeout_message(host: &str, port: u16) -> (r: String)
    ensures
        r@ == upstream_timeout_text(host@, port),
{
    let mut out: Vec<char> = Vec::new();
    text::append_str(&mut out, "upstream connect to ");
    text::append_str(&mut out, host);
    text::append_str(&mut out, ":");
    text::append_chars(&mut out, text::decimal_text(port as u64).as_slice());
    text::append_str(&mut out, " timed out after 10s");
    assert(out@ =~= upstream_timeout_text(host@, port));
    text::string_of(out.as_slice())
}

/// A TUIC server, as it is configured.
pub struct TuicOutbound {
    pub server: String,
    pub port: u16,
    pub uuid: String,
    pub password: String,
    pub congestion_control: String,
    pub tls: Option<TlsConfig>,
}

/// No proxy: the target itself is dialled.
pub struct DirectOutbound;

/// A way to reach a target.
pub enum OutboundKind {
    Direct(DirectOutbound),
    Retry(RetryOutbound),
    Vless(VlessOutbound),
    VMess(VMessOutbound),
    Trojan(TrojanOutbound),
    Shadowsocks(SsOutbound),
    ShadowTls(ShadowTlsOutbound),
    Tuic(TuicOutbound),
    Hysteria2(Hysteria2Outbound),
}

/// An outbound that tries again when a connection fails.
pub struct RetryOutbound {
    pub inner: Arc<OutboundKind>,
    pub max_attempts: u32,
    pub base_delay_ms: u64,
    pub max_delay_ms: u64,
}

/// The name of a way to reach a target. What only adds attempts has the name
/// of what it adds them to.
pub open spec fn outbound_name(o: OutboundKind) -> Seq<char>
    decreases o,
{
    match o {
        OutboundKind::Direct(_) => "direct"@,
        OutboundKind::Retry(r) => outbound_name(*r.inner),
        OutboundKind::Vless(_) => "vless"@,
        OutboundKind::VMess(_) => "vmess"@,
        OutboundKind::Trojan(_) => "trojan"@,
        OutboundKind::Shadowsocks(_) => "shadowsocks"@,
        OutboundKind::ShadowTls(_) => "shadowsocks+shadow-tls"@,
        OutboundKind::Tuic(_) => "tuic"@,
        OutboundKind::Hysteria2(_) => "hysteria2"@,
    }
}

impl OutboundKind {
    /// The name of the outbound.
    pub fn name(&self) -> (r: &'static str)
        ensures
            r@ == outbound_name(*self),
        decreases self,
    {
        match self {
            OutboundKind::Direct(_) => "direct",
            OutboundKind::Retry(r) => r.inner.name(),
            OutboundKind::Vless(_) => "vless",
            OutboundKind::VMess(_) => "vmess",
            OutboundKind::Trojan(_) => "trojan",
            OutboundKind::Shadowsocks(_) => "shadowsocks",
            OutboundKind::ShadowTls(_) => "shadowsocks+shadow-tls",
            OutboundKind::Tuic(_) => "tuic",
            OutboundKind::Hysteria2(_) => "hysteria2",
        }
    }
}

// ---------------------------------------------------------------------------
// Trying again
// ---------------------------------------------------------------------------

/// A series of attempts.
#[derive(Debug, Clone, Copy, PartialEq, Eq, Structural)]
pub struct Attempts {
    /// Attempts that have failed.
    pub failed: u32,
    /// The pause before the next attempt, in milliseconds.
    pub delay_ms: u64,
}

/// What follows from an attempt that failed.
#[derive(Debug, Clone, Copy, PartialEq, Eq, Structural)]
pub enum RetryStep {
    /// Pause for this many milliseconds, then try again.
    Pause(u64),
    /// The error stands.
    GiveUp,
}

/// The pause before attempt `k + 1`, in milliseconds: it doubles each time up
/// to the limit.
pub open spec fn delay_before(base: u64, max: u64, k: nat) -> int
    decreases k,
{
    if k <= 1 {
        base as int
    } else {
        let d = 2 * delay_before(base, max, (k - 1) as nat);
        if d < max {
            d
        } else {
            max as int
        }
    }
}

/// How many attempts there are: at least one.
pub open spec fn attempt_limit(max_attempts: u32) -> u32 {
    if max_attempts == 0 {
        1
    } else {
        max_attempts
    }
}

/// What follows a failed attempt.
pub open spec fn failed_again(o: RetryOutbound, before: Attempts, now: Attempts, r: RetryStep) -> bool {
    &&& before.failed + 1 < attempt_limit(o.max_attempts) ==> r == RetryStep::Pause(
        delay_before(o.base_delay_ms, o.max_delay_ms, (before.failed + 1) as nat) as u64,
    ) && o.admits(now) && now.failed == before.failed + 1
    &&& before.failed + 1 == attempt_limit(o.max_attempts) ==> r == RetryStep::GiveUp && now
        == before
}

impl RetryOutbound {
    /// The pauses can be computed.
    pub open spec fn wf(self) -> bool {
        2 * self.base_delay_ms <= u64::MAX && 2 * self.max_delay_ms <= u64::MAX
    }

    /// The series is one of this outbound.
    pub open spec fn admits(self, a: Attempts) -> bool {
        &&& a.failed < attempt_limit(self.max_attempts)
        &&& a.delay_ms == delay_before(self.base_delay_ms, self.max_delay_ms, (a.failed + 1) as nat)
    }

    /// Three attempts, with pauses from 200 ms up to 2 s.
    pub fn new(inner: Arc<OutboundKind>) -> (r: Self)
        ensures
            r.wf(),
            r == (RetryOutbound { inner, max_attempts: 3, base_delay_ms: 200, max_delay_ms: 2000 }),
    {
        RetryOutbound { inner, max_attempts: 3, base_delay_ms: 200, max_delay_ms: 2000 }
    }

    /// A series at its start.
    pub fn attempts(&self) -> (r: Attempts)
        ensures
            self.admits(r),
            r.failed == 0,
    {
        Attempts { failed: 0, delay_ms: self.base_delay_ms }
    }

    /// An attempt failed.
    pub fn on_failure(&self, a: &mut Attempts) -> (r: RetryStep)
        requires
            self.wf(),
            self.admits(*old(a)),
        ensures
            failed_again(*self, *old(a), *final(a), r),
    {
        let limit: u32 = if self.max_attempts == 0 {
            1
        } else {
            self.max_attempts
        };
        if a.failed + 1 == limit {
            return RetryStep::GiveUp;
        }
        let pause: u64 = a.delay_ms;
        proof {
            lemma_delay_bound(self.base_delay_ms, self.max_delay_ms, (a.failed + 1) as nat);
        }
        let doubled: u64 = pause * 2;
        a.delay_ms = if doubled < self.max_delay_ms {
            doubled
        } else {
            self.max_delay_ms
        };
        a.failed = a.failed + 1;
        RetryStep::Pause(pause)
    }
}

proof fn lemma_delay_bound(base: u64, max: u64, k: nat)
    ensures
        0 <= delay_before(base, max, k) <= base || delay_before(base, max, k) <= max,
        delay_before(base, max, k) >= 0,
    decreases k,
{
    if k > 1 {
        lemma_delay_bound(base, max, (k - 1) as nat);
    }
}

/// No pause but the first is longer than the limit.
pub proof fn law_pauses_are_limited(base: u64, max: u64, k: nat)
    requires
        k >= 2,
    ensures
        delay_before(base, max, k) <= max,
{
}

// ---------------------------------------------------------------------------
// Sharing
// ---------------------------------------------------------------------------

/// An outbound that many hold.
#[derive(Clone)]
pub struct SharedOutbound(pub Arc<OutboundKind>);

impl SharedOutbound {
    /// The outbound that uses no proxy.
    pub fn direct() -> (r: Self)
        ensures
            *r.0 is Direct,
    {
        SharedOutbound(Arc::new(OutboundKind::Direct(DirectOutbound)))
    }

    /// This outbound, tried up to `max_attempts` times.
    pub fn with_retry(self, max_attempts: u32) -> (r: Self)
        ensures
            *r.0 == OutboundKind::Retry(
                RetryOutbound { inner: self.0, max_attempts, base_delay_ms: 200, max_delay_ms: 2000 },
            ),
    {
        SharedOutbound(
            Arc::new(
                OutboundKind::Retry(
                    RetryOutbound {
                        inner: self.0,
                        max_attempts,
                        base_delay_ms: 200,
                        max_delay_ms: 2000,
                    },
                ),
            ),
        )
    }

    /// Another handle on the same outbound.
    pub fn share(&self) -> (r: Self)
        ensures
            r == *self,
    {
        SharedOutbound(self.0.clone())
    }
}

/// Attempts do not change the name of an outbound.
pub proof fn law_retry_keeps_the_name(inner: Arc<OutboundKind>, max_attempts: u32)
    ensures
        outbound_name(
            OutboundKind::Retry(
                RetryOutbound { inner, max_attempts, base_delay_ms: 200, max_delay_ms: 2000 },
            ),
        ) == outbound_name(*inner),
{
}

/// An outbound that can be replaced while others hold it. Connections that
/// are open keep the outbound that they began with.
pub struct SwappableOutbound {
    pub inner: SharedOutbound,
}

impl SwappableOutbound {
    /// Begins with an outbound.
    pub fn new(outbound: SharedOutbound) -> (r: Self)
        ensures
            r.inner == outbound,
    {
        SwappableOutbound { inner: outbound }
    }

    /// Replaces the outbound.
    pub fn set(&mut self, outbound: SharedOutbound)
        ensures
            final(self).inner == outbound,
    {
        self.inner = outbound;
    }

    /// The outbound for a new connection.
    pub fn current(&self) -> (r: SharedOutbound)
        ensures
            r == self.inner,
    {
        self.inner.share()
    }
}

/// What happens to an outbound that can be replaced.
pub enum SlotEvent {
    /// It is replaced.
    Replaced(SharedOutbound),
    /// Somebody opens a connection through it.
    Connect,
}

/// The outbound for a new connection, after events.
pub open spec fn slot_after(start: SharedOutbound, events: Seq<SlotEvent>) -> SharedOutbound
    decreases events.len(),
{
    if events.len() == 0 {
        start
    } else {
        match events.last() {
            SlotEvent::Replaced(o) => o,
            SlotEvent::Connect => slot_after(start, events.drop_last()),
        }
    }
}

/// The outbounds of the connections that were opened, in turn. Whoever holds
/// the slot, each connection takes what is current when it is opened.
pub open spec fn taken(start: SharedOutbound, events: Seq<SlotEvent>) -> Seq<SharedOutbound>
    decreases events.len(),
{
    if events.len() == 0 {
        seq![]
    } else {
        let before = taken(start, events.drop_last());
        match events.last() {
            SlotEvent::Replaced(_) => before,
            SlotEvent::Connect => before.push(slot_after(start, events.drop_last())),
        }
    }
}

/// Once an outbound is replaced, every new connection takes the new one until
/// it is replaced again, and every connection that was opened before keeps
/// its own.
pub proof fn law_new_connections_take_the_new_outbound(
    start: SharedOutbound,
    before: Seq<SlotEvent>,
    new: SharedOutbound,
    later: Seq<SlotEvent>,
)
    requires
        forall|i: int| 0 <= i < later.len() ==> #[trigger] later[i] is Connect,
    ensures
        slot_after(start, before.push(SlotEvent::Replaced(new)) + later) == new,
        taken(start, before.push(SlotEvent::Replaced(new)) + later) == taken(start, before) + Seq::new(
            later.len(),
            |i: int| new,
        ),
    decreases later.len(),
{
    let set = before.push(SlotEvent::Replaced(new));
    let all = set + later;
    if later.len() == 0 {
        assert(all =~= set);
        assert(set.drop_last() =~= before);
        assert(taken(start, all) =~= taken(start, before) + Seq::new(0, |i: int| new));
    } else {
        let d = later.drop_last();
        assert forall|i: int| 0 <= i < d.len() implies #[trigger] d[i] is Connect by {
            assert(d[i] == later[i]);
        }
        law_new_connections_take_the_new_outbound(start, before, new, d);
        assert(later[later.len() - 1] is Connect);
        assert(all.drop_last() =~= set + d);
        assert(all.last() == later.last());
        assert(taken(start, all) =~= taken(start, before) + Seq::new(later.len(), |i: int| new));
    }
}

/// As many attempts are made as are allowed, and one where none is: the last failure ends it,
/// and no earlier one does. The first pause is the base, the second twice that unless the
/// longest is less.
pub proof fn law_attempts_are_counted(o: RetryOutbound, before: Attempts, now: Attempts, r: RetryStep)
    requires
        o.wf(),
        o.admits(before),
        failed_again(o, before, now, r),
    ensures
        r is GiveUp == (before.failed + 1 >= o.max_attempts),
        r is Pause ==> now.failed == before.failed + 1,
        before.failed == 0 ==> r is GiveUp || r == RetryStep::Pause(o.base_delay_ms),
        before.failed == 1 ==> r is GiveUp || r == RetryStep::Pause(
            if 2 * o.base_delay_ms < o.max_delay_ms {
                (2 * o.base_delay_ms) as u64
            } else {
                o.max_delay_ms
            },
        ),
{
    reveal_with_fuel(delay_before, 3);
}

/// Each pause but the first is twice the one before it, up to the longest.
pub proof fn law_pauses_double(base: u64, max: u64, k: nat)
    requires
        k >= 1,
    ensures
        delay_before(base, max, 1) == base,
        2 * delay_before(base, max, k) <= max ==> delay_before(base, max, k + 1) == 2 * delay_before(
            base,
            max,
            k,
        ),
        2 * delay_before(base, max, k) >= max ==> delay_before(base, max, k + 1) == max,
{
}

} // verus!
