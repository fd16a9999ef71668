//! The service: its state, and what it is asked to do.

use vstd::prelude::*;

use crate::proxy::connector::SharedOutbound;
use crate::proxy::health::HealthCheckConfig;
use crate::proxy::stats;
use crate::proxy::stats::{ProxyState, ProxyStats};

verus! {

/// The text for a service that is started twice.
pub const ALREADY_RUNNING: &'static str = "Proxy service is already running";

/// The service is running already.
#[derive(Debug)]
pub struct AlreadyRunning;

/// The SOCKS5 and the HTTP server with what they share.
pub struct ProxyService {
    pub state: ProxyState,
    /// The servers run.
    pub listening: bool,
    /// The watch over the node in use runs.
    pub monitored: bool,
    pub stats: ProxyStats,
    pub outbound: SharedOutbound,
}

impl Default for ProxyService {
    fn default() -> (r: Self)
        ensures
            r.wf(),
            r.state is Disconnected,
            !r.listening,
            !r.monitored,
            r.stats@ == stats::no_stats(),
            *r.outbound.0 is Direct,
    {
        ProxyService::new()
    }
}

impl ProxyService {
    /// The counters are sound.
    pub open spec fn wf(self) -> bool {
        self.stats.wf()
    }

    /// A service at rest, without a proxy.
    pub fn new() -> (r: Self)
        ensures
            r.wf(),
            r.state is Disconnected,
            !r.listening,
            !r.monitored,
            r.stats@ == stats::no_stats(),
            *r.outbound.0 is Direct,
    {
        Self::with_outbound(SharedOutbound::direct())
    }

    /// A service at rest, with the given outbound.
    pub fn with_outbound(outbound: SharedOutbound) -> (r: Self)
        ensures
            r.wf(),
            r.state is Disconnected,
            !r.listening,
            !r.monitored,
            r.stats@ == stats::no_stats(),
            r.outbound == outbound,
    {
        ProxyService {
            state: ProxyState::Disconnected,
            listening: false,
            monitored: false,
            stats: ProxyStats::new(),
            outbound,
        }
    }

    /// Replaces the outbound.
    pub fn set_outbound(&mut self, outbound: SharedOutbound)
        ensures
            *final(self) == (ProxyService { outbound, ..*old(self) }),
    {
        self.outbound = outbound;
    }

    /// Begins to start the servers; a service that runs is not started again.
    pub fn start(&mut self) -> (r: Result<(), AlreadyRunning>)
        requires
            old(self).wf(),
        ensures
            final(self).wf(),
            begun(*old(self), r, *final(self)),
    {
        if self.listening {
            return Err(AlreadyRunning);
        }
        self.state = ProxyState::Connecting;
        self.stats.reset();
        Ok(())
    }

    /// Both servers listen.
    pub fn started(&mut self)
        requires
            old(self).wf(),
        ensures
            final(self).wf(),
            *final(self) == (ProxyService {
                state: ProxyState::Connected,
                listening: true,
                ..*old(self)
            }),
    {
        self.listening = true;
        self.state = ProxyState::Connected;
    }

    /// The servers and the watch are stopped.
    pub fn stop(&mut self)
        requires
            old(self).wf(),
        ensures
            final(self).wf(),
            *final(self) == (ProxyService {
                state: ProxyState::Disconnected,
                listening: false,
                monitored: false,
                ..*old(self)
            }),
    {
        self.listening = false;
        self.monitored = false;
        self.state = ProxyState::Disconnected;
    }

    /// The service is connected.
    pub fn is_running(&self) -> (r: bool)
        ensures
            r == (self.state is Connected),
    {
        match self.state {
            ProxyState::Connected => true,
            _ => false,
        }
    }

    /// The state of the service.
    pub fn state(&self) -> (r: &ProxyState)
        ensures
            *r == self.state,
    {
        &self.state
    }

    /// The counters of the service.
    pub fn stats(&self) -> (r: &ProxyStats)
        ensures
            *r == self.stats,
    {
        &self.stats
    }

    /// Begins the watch over the node in use, and says whether there is one
    /// to run: only where it is switched on and the service is connected.
    pub fn enable_health_check(&mut self, config: &HealthCheckConfig) -> (r: bool)
        ensures
            monitoring(*old(self), *config, r, *final(self)),
    {
        if !config.enabled || !self.is_running() {
            return false;
        }
        self.monitored = true;
        true
    }

    /// Ends the watch that runs and begins another.
    pub fn restart_health_check(&mut self, config: &HealthCheckConfig) -> (r: bool)
        ensures
            r == (config.enabled && old(self).state is Connected),
            *final(self) == (ProxyService { monitored: r, ..*old(self) }),
    {
        self.monitored = false;
        self.enable_health_check(config)
    }
}

/// What the start of the service comes to.
pub open spec fn begun(
    before: ProxyService,
    r: Result<(), AlreadyRunning>,
    after: ProxyService,
) -> bool {
    &&& after.outbound == before.outbound
    &&& after.monitored == before.monitored
    &&& after.listening == before.listening
    &&& r is Err == before.listening
    &&& r is Err ==> after == before
    &&& r is Ok ==> after.state is Connecting && after.stats@ == stats::no_stats()
}

/// What it comes to that probes are asked for.
pub open spec fn monitoring(
    before: ProxyService,
    config: HealthCheckConfig,
    r: bool,
    after: ProxyService,
) -> bool {
    &&& r == (config.enabled && before.state is Connected)
    &&& after == (ProxyService { monitored: before.monitored || r, ..before })
}

/// A service that listens is not started again and stays as it is; one that does not starts to
/// count anew and keeps the outbound that it was given.
pub proof fn law_service_is_started_once(
    before: ProxyService,
    r: Result<(), AlreadyRunning>,
    after: ProxyService,
)
    requires
        begun(before, r, after),
    ensures
        before.listening ==> r is Err && after == before,
        !before.listening ==> r is Ok && after.state is Connecting && !after.listening
            && after.stats@ == stats::no_stats() && after.outbound == before.outbound,
{
}

/// Probes run only where they are switched on and the service is connected; else nothing
/// changes.
pub proof fn law_probes_need_a_connection(
    before: ProxyService,
    config: HealthCheckConfig,
    r: bool,
    after: ProxyService,
)
    requires
        monitoring(before, config, r, after),
    ensures
        config.enabled && before.state is Connected ==> r && after.monitored,
        !config.enabled || !(before.state is Connected) ==> !r && after == before,
        after.state == before.state && after.outbound == before.outbound,
{
}

} // verus!
