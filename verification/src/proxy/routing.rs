//! An outbound that routes.

use vstd::prelude::*;

use crate::net;
use crate::net::IpAddr;
use crate::proxy::connector::SharedOutbound;
use crate::router::engine;
use crate::router::engine::{RouteAction, RouteStep, Router};
use crate::text;

verus! {

broadcast use {
    vstd::seq::group_seq_axioms,
    vstd::slice::group_slice_axioms,
    vstd::string::group_string_axioms,
};

/// Sends connections through the proxy or straight to their targets, as the
/// rules say.
pub struct RoutingOutbound {
    pub router: Router,
    pub proxy_outbound: SharedOutbound,
    pub direct_outbound: SharedOutbound,
}

/// The text for a connection that the rules refuse.
pub open spec fn rejected_text(host: Seq<char>, port: u16) -> Seq<char> {
    "Connection rejected by routing rule: "@ + host + ":"@ + text::decimal(port as nat)
}

/// What is to be done for a connection.
pub enum RoutingStep {
    /// It is made through this outbound.
    Via(SharedOutbound),
    /// It is refused, with this error.
    Refused(String),
    /// This name has to be resolved first.
    Resolve(String),
}

/// The step that carries out what is done with a connection.
pub open spec fn carries_out(
    o: RoutingOutbound,
    action: RouteAction,
    host: Seq<char>,
    port: u16,
    r: RoutingStep,
) -> bool {
    match action {
        RouteAction::Proxy => r == RoutingStep::Via(o.proxy_outbound),
        RouteAction::Direct => r == RoutingStep::Via(o.direct_outbound),
        RouteAction::Reject => r matches RoutingStep::Refused(t) && t@ == rejected_text(host, port),
    }
}

/// What comes of a connection to a target, and what is remembered of it.
pub open spec fn connected(
    before: RoutingOutbound,
    after: RoutingOutbound,
    host: Seq<char>,
    port: u16,
    r: RoutingStep,
) -> bool {
    match engine::remembered(before.router@, host) {
        Some(a) => carries_out(before, a, host, port, r) && after.router@ == engine::consulted(
            before.router@,
            host,
        ),
        None => if net::ip_of(host) is None && engine::needs_address(
            before.router@.rules,
            text::folded(host),
        ) {
            r matches RoutingStep::Resolve(name) && name@ == text::folded(host) && after.router@
                == before.router@
        } else {
            let a = engine::ruling(before.router@, host, net::ip_of(host));
            carries_out(before, a, host, port, r) && after.router@ == engine::learnt(
                before.router@,
                host,
                a,
            )
        },
    }
}

/// What comes of a connection to a target whose address was looked up.
pub open spec fn connected_resolved(
    before: RoutingOutbound,
    after: RoutingOutbound,
    host: Seq<char>,
    port: u16,
    ip: Option<IpAddr>,
    r: RoutingStep,
) -> bool {
    let a = engine::ruling(before.router@, host, ip);
    carries_out(before, a, host, port, r) && after.router@ == engine::learnt(before.router@, host, a)
}

impl RoutingOutbound {
    /// The router is sound.
    pub open spec fn wf(self) -> bool {
        self.router.wf()
    }

    /// The same outbounds.
    pub open spec fn same_ways(self, other: Self) -> bool {
        self.proxy_outbound == other.proxy_outbound && self.direct_outbound
            == other.direct_outbound
    }

    /// Routes between the given outbound and none.
    pub fn new(router: Router, proxy_outbound: SharedOutbound) -> (r: Self)
        ensures
            r.router == router,
            r.proxy_outbound == proxy_outbound,
            *r.direct_outbound.0 is Direct,
    {
        RoutingOutbound { router, proxy_outbound, direct_outbound: SharedOutbound::direct() }
    }

    fn dispatch(&self, action: RouteAction, host: &str, port: u16) -> (r: RoutingStep)
        ensures
            carries_out(*self, action, host@, port, r),
    {
        match action {
            RouteAction::Proxy => RoutingStep::Via(self.proxy_outbound.share()),
            RouteAction::Direct => RoutingStep::Via(self.direct_outbound.share()),
            RouteAction::Reject => {
                let mut out: Vec<char> = Vec::new();
                text::append_str(&mut out, "Connection rejected by routing rule: ");
                text::append_str(&mut out, host);
                text::append_str(&mut out, ":");
                text::append_chars(&mut out, text::decimal_text(port as u64).as_slice());
                assert(out@ =~= rejected_text(host@, port));
                RoutingStep::Refused(text::string_of(out.as_slice()))
            },
        }
    }

    /// A connection to a target: what is remembered of the target is done, or
    /// what the rules say. Only where a rule on the address is reached does a
    /// name have to be resolved first.
    pub fn connect(&mut self, host: &str, port: u16) -> (r: RoutingStep)
        requires
            old(self).wf(),
        ensures
            final(self).wf(),
            final(self).same_ways(*old(self)),
            connected(*old(self), *final(self), host@, port, r),
    {
        match self.router.route_resolving(host, port) {
            RouteStep::Decided(action) => self.dispatch(action, host, port),
            RouteStep::Resolve(name) => RoutingStep::Resolve(name),
        }
    }

    /// A connection whose target was resolved, or could not be.
    pub fn connect_resolved(&mut self, host: &str, port: u16, ip: Option<IpAddr>) -> (r:
        RoutingStep)
        requires
            old(self).wf(),
        ensures
            final(self).wf(),
            final(self).same_ways(*old(self)),
            connected_resolved(*old(self), *final(self), host@, port, ip, r),
    {
        let action = self.router.route_resolved(host, ip);
        self.dispatch(action, host, port)
    }

    /// The name of the outbound.
    pub fn name(&self) -> (r: &'static str)
        ensures
            r@ == "routing"@,
    {
        "routing"
    }
}

/// A target that the rules refuse is not connected to, neither when it is
/// first asked for nor when the decision is remembered.
pub proof fn law_refused_targets_stay_refused(
    o: RoutingOutbound,
    host: Seq<char>,
    ip: Option<IpAddr>,
    port: u16,
)
    requires
        engine::ruling(o.router@, host, ip) == RouteAction::Reject,
    ensures
        forall|r: RoutingStep|
            carries_out(o, engine::ruling(o.router@, host, ip), host, port, r) ==> r is Refused,
        engine::remembered(engine::learnt(o.router@, host, RouteAction::Reject), host) == Some(
            RouteAction::Reject,
        ),
{
    engine::law_decisions_are_remembered(o.router@, host, host, RouteAction::Reject);
}

/// A way is what an action stands for: the proxy, no proxy, or no connection at all.
pub open spec fn is_way(o: RoutingOutbound, a: RouteAction, r: RoutingStep) -> bool {
    match r {
        RoutingStep::Via(way) => a is Proxy && way == o.proxy_outbound || a is Direct && way
            == o.direct_outbound,
        RoutingStep::Refused(_) => a is Reject,
        RoutingStep::Resolve(_) => false,
    }
}

/// A target goes the way of the action that the rules give for it, and the next connection to
/// it goes the same way.
pub proof fn law_target_goes_the_way_of_its_action(
    before: RoutingOutbound,
    after: RoutingOutbound,
    last: RoutingOutbound,
    host: Seq<char>,
    port: u16,
    r: RoutingStep,
    again: RoutingStep,
)
    requires
        engine::remembered(before.router@, host) is None,
        connected(before, after, host, port, r),
        !(r is Resolve),
        after.same_ways(before),
        connected(after, last, host, port, again),
    ensures
        is_way(before, engine::ruling(before.router@, host, net::ip_of(host)), r),
        is_way(before, engine::ruling(before.router@, host, net::ip_of(host)), again),
{
    let a = engine::ruling(before.router@, host, net::ip_of(host));
    engine::law_decisions_are_remembered(before.router@, host, host, a);
}

/// A name that had to be looked up goes the way of the action for the address that was found,
/// and so does the next connection to it.
pub proof fn law_looked_up_target_goes_the_way_of_its_action(
    before: RoutingOutbound,
    after: RoutingOutbound,
    last: RoutingOutbound,
    host: Seq<char>,
    port: u16,
    ip: Option<IpAddr>,
    r: RoutingStep,
    again: RoutingStep,
)
    requires
        connected_resolved(before, after, host, port, ip, r),
        after.same_ways(before),
        connected(after, last, host, port, again),
    ensures
        is_way(before, engine::ruling(before.router@, host, ip), r),
        is_way(before, engine::ruling(before.router@, host, ip), again),
{
    let a = engine::ruling(before.router@, host, ip);
    engine::law_decisions_are_remembered(before.router@, host, host, a);
}

/// An address is never looked up.
pub proof fn law_addresses_are_not_looked_up(
    before: RoutingOutbound,
    after: RoutingOutbound,
    ip: IpAddr,
    port: u16,
    r: RoutingStep,
)
    requires
        connected(before, after, net::ip_text(ip), port, r),
    ensures
        !(r is Resolve),
{
    net::law_ip_text_is_read_back(ip);
}

} // verus!
