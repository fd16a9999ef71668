//! Whether the node in use still answers, and which one takes its place.

use vstd::prelude::*;

use crate::config::Node;
use crate::text;

verus! {

broadcast use {
    vstd::seq::group_seq_axioms,
    vstd::slice::group_slice_axioms,
    vstd::string::group_string_axioms,
    vstd::std_specs::vec::group_vec_axioms,
};

/// Seconds for a probe of the node in use.
pub const PROBE_TIMEOUT_SECS: u64 = 5;

/// Seconds for a probe of a candidate.
pub const CANDIDATE_TIMEOUT_SECS: u64 = 5;

/// How the node in use is watched.
#[derive(Debug, Clone, Copy, PartialEq, Eq, Structural)]
pub struct HealthCheckConfig {
    pub enabled: bool,
    pub interval_secs: u64,
    pub failure_threshold: u32,
    pub auto_switch: bool,
}

/// What happened to the node in use.
#[derive(Debug, Clone, PartialEq)]
pub enum HealthEvent {
    /// It answered.
    ProbeOk { latency_ms: u32 },
    /// It did not answer.
    ProbeFailed { consecutive_failures: u32, error: String },
    /// Another node took its place.
    AutoSwitched { node_index: usize, node_name: String, latency_ms: u32 },
    /// No node could take its place.
    SwitchFailed { reason: String },
}

/// What the watch works with.
pub struct HealthCheckSetup {
    pub config: HealthCheckConfig,
    /// The nodes that can take the place of the one in use.
    pub nodes: Vec<Node>,
    pub active_node: Option<usize>,
}

/// Failures in a row.
#[derive(Debug, Clone, Copy, PartialEq, Eq, Structural)]
pub struct FailureTracker {
    pub threshold: u32,
    pub consecutive: u32,
}

impl FailureTracker {
    /// One more failure can be counted.
    pub open spec fn can_count(self) -> bool {
        self.consecutive < u32::MAX
    }

    /// No failures. The threshold is at least one.
    pub fn new(threshold: u32) -> (r: Self)
        ensures
            r == fresh_tracker(threshold),
    {
        FailureTracker {
            threshold: if threshold == 0 {
                1
            } else {
                threshold
            },
            consecutive: 0,
        }
    }

    /// The node answered.
    pub fn record_success(&mut self)
        ensures
            *final(self) == (FailureTracker { consecutive: 0, ..*old(self) }),
    {
        self.consecutive = 0;
    }

    /// The node did not answer; says whether the threshold is reached.
    pub fn record_failure(&mut self) -> (r: bool)
        requires
            old(self).can_count(),
        ensures
            one_more(*old(self), r, *final(self)),
    {
        self.consecutive = self.consecutive + 1;
        self.consecutive >= self.threshold
    }

    /// Counts anew.
    pub fn reset(&mut self)
        ensures
            *final(self) == (FailureTracker { consecutive: 0, ..*old(self) }),
    {
        self.consecutive = 0;
    }
}

/// Seconds between probes: from five seconds to an hour.
pub fn probe_interval(config: &HealthCheckConfig) -> (r: u64)
    ensures
        r == interval_of(*config),
{
    if config.interval_secs < 5 {
        5
    } else if config.interval_secs > 3600 {
        3600
    } else {
        config.interval_secs
    }
}

/// What follows from a probe.
#[derive(Debug)]
pub struct ProbeOutcome {
    pub event: HealthEvent,
    /// Another node is to take the place of the one in use.
    pub failover: bool,
}

/// The watch over the node in use.
#[derive(Debug, Clone, Copy, PartialEq, Eq, Structural)]
pub struct HealthRun {
    pub config: HealthCheckConfig,
    pub tracker: FailureTracker,
}

/// What follows from the search for another node.
#[derive(Debug)]
pub enum Failover {
    /// An outbound is to be made for the node with this index.
    Build { index: usize, latency_ms: u32 },
    /// No node answered.
    Nothing(HealthEvent),
}

/// The watch after a probe. Where the threshold is reached and switching is
/// on, the count begins anew, so that the next failures are counted for the
/// node that takes its place.
pub open spec fn after_probe(run: HealthRun, answered: bool) -> HealthRun {
    HealthRun {
        tracker: FailureTracker {
            consecutive: if answered || fails_over(run, answered) {
                0
            } else {
                (run.tracker.consecutive + 1) as u32
            },
            ..run.tracker
        },
        ..run
    }
}

/// After a probe, another node is to take the place of the one in use.
pub open spec fn fails_over(run: HealthRun, answered: bool) -> bool {
    &&& !answered
    &&& run.config.auto_switch
    &&& run.tracker.consecutive + 1 >= run.tracker.threshold
}

/// The watch after so many failures in a row.
pub open spec fn after_failures(run: HealthRun, n: nat) -> HealthRun
    decreases n,
{
    if n == 0 {
        run
    } else {
        after_probe(after_failures(run, (n - 1) as nat), false)
    }
}

impl HealthRun {
    /// A watch at its start.
    pub fn new(config: HealthCheckConfig) -> (r: Self)
        ensures
            r.config == config,
            r.tracker == fresh_tracker(config.failure_threshold),
    {
        HealthRun { config, tracker: FailureTracker::new(config.failure_threshold) }
    }

    /// The node was probed: it answered within so many milliseconds, or an
    /// error came up.
    pub fn on_probe(&mut self, result: Result<u32, String>) -> (r: ProbeOutcome)
        requires
            result is Err ==> old(self).tracker.can_count(),
        ensures
            probed(*old(self), result, r, *final(self)),
    {
        match result {
            Ok(ms) => {
                self.tracker.record_success();
                ProbeOutcome { event: HealthEvent::ProbeOk { latency_ms: ms }, failover: false }
            },
            Err(e) => {
                let reached = self.tracker.record_failure();
                let event = HealthEvent::ProbeFailed {
                    consecutive_failures: self.tracker.consecutive,
                    error: e,
                };
                let failover = reached && self.config.auto_switch;
                if failover {
                    self.tracker.reset();
                }
                ProbeOutcome { event, failover }
            },
        }
    }

    /// The search for another node is over.
    pub fn on_search(&self, best: Option<(usize, u32)>) -> (r: Failover)
        ensures
            is_failover(best, r),
    {
        match best {
            Some((index, ms)) => Failover::Build { index, latency_ms: ms },
            None => Failover::Nothing(
                HealthEvent::SwitchFailed {
                    reason: text::string_of(
                        text::chars_of("no reachable node among candidates").as_slice(),
                    ),
                },
            ),
        }
    }

    /// An outbound for the node was made, or could not be.
    pub fn on_built(&self, node: &Node, index: usize, latency_ms: u32, built: bool) -> (r: HealthEvent)
        ensures
            built ==> (r matches HealthEvent::AutoSwitched {
                node_index,
                node_name,
                latency_ms: ms,
            } && node_index == index && node_name@ == node.name@ && ms == latency_ms),
            !built ==> (r matches HealthEvent::SwitchFailed { reason } && reason@
                == "failed to build outbound for '"@ + node.name@ + "'"@),
    {
        if built {
            return HealthEvent::AutoSwitched {
                node_index: index,
                node_name: node.name.clone(),
                latency_ms,
            };
        }
        let mut out: Vec<char> = Vec::new();
        text::append_str(&mut out, "failed to build outbound for '");
        text::append_str(&mut out, node.name.as_str());
        text::append_str(&mut out, "'");
        assert(out@ =~= "failed to build outbound for '"@ + node.name@ + "'"@);
        HealthEvent::SwitchFailed { reason: text::string_of(out.as_slice()) }
    }
}

/// The fastest of the nodes that answered: of two that are equally fast, the
/// one that answered first. Each answer is a node with its latency.
pub open spec fn best_of(answers: Seq<Option<(usize, u32)>>) -> Option<(usize, u32)>
    decreases answers.len(),
{
    if answers.len() == 0 {
        None
    } else {
        let before = best_of(answers.drop_last());
        match (before, answers.last()) {
            (Some(b), Some(a)) => if a.1 < b.1 {
                Some(a)
            } else {
                Some(b)
            },
            (None, Some(a)) => Some(a),
            (b, None) => b,
        }
    }
}

/// The fastest of the nodes that answered, in the order of their answers.
pub fn find_best_node(answers: &[Option<(usize, u32)>]) -> (r: Option<(usize, u32)>)
    ensures
        r == best_of(answers@),
{
    let mut best: Option<(usize, u32)> = None;
    let mut i: usize = 0;
    assert(answers@.take(0) =~= seq![]);
    while i < answers.len()
        invariant
            i <= answers@.len(),
            best == best_of(answers@.take(i as int)),
        decreases answers@.len() - i,
    {
        let ghost t = answers@.take(i + 1);
        assert(t.drop_last() =~= answers@.take(i as int));
        assert(t.last() == answers@[i as int]);
        if let Some(a) = answers[i] {
            let better = match best {
                Some(b) => a.1 < b.1,
                None => true,
            };
            if better {
                best = Some(a);
            }
        }
        i = i + 1;
    }
    assert(answers@.take(i as int) =~= answers@);
    best
}

/// With switching on, another node is sought at the failure that makes the
/// threshold full, and at none before it.
pub proof fn law_failover_at_threshold(run: HealthRun, n: nat)
    requires
        run.config.auto_switch,
        run.tracker.consecutive == 0,
        1 <= n <= run.tracker.threshold,
    ensures
        fails_over(after_failures(run, (n - 1) as nat), false) == (n == run.tracker.threshold),
        n < run.tracker.threshold ==> after_failures(run, n).tracker.consecutive == n,
        n == run.tracker.threshold ==> after_failures(run, n) == run,
    decreases n,
{
    if n > 1 {
        law_failover_at_threshold(run, (n - 1) as nat);
    }
    lemma_failures_keep(run, n);
    lemma_failures_keep(run, (n - 1) as nat);
}

proof fn lemma_failures_keep(run: HealthRun, n: nat)
    ensures
        after_failures(run, n).config == run.config,
        after_failures(run, n).tracker.threshold == run.tracker.threshold,
    decreases n,
{
    if n > 0 {
        lemma_failures_keep(run, (n - 1) as nat);
    }
}

/// An answer makes the watch as it was at its start, and no other node is
/// sought.
pub proof fn law_answer_clears_failures(run: HealthRun)
    ensures
        after_probe(run, true) == (HealthRun {
            tracker: FailureTracker { consecutive: 0, ..run.tracker },
            ..run
        }),
        !fails_over(run, true),
{
}

/// With switching on, the failures that are counted stay below the threshold,
/// so that the next one can be counted.
pub proof fn law_count_stays_below_threshold(run: HealthRun, answered: bool)
    requires
        run.config.auto_switch,
        run.tracker.consecutive < run.tracker.threshold,
    ensures
        after_probe(run, answered).tracker.consecutive < run.tracker.threshold,
        after_probe(run, answered).tracker.can_count(),
{
}

/// The node that is chosen answered, no other answered faster, and none is
/// chosen only where none answered.
pub proof fn law_best_is_fastest(answers: Seq<Option<(usize, u32)>>)
    ensures
        best_of(answers) matches Some(b) ==> answers.contains(Some(b)) && forall|i: int|
            0 <= i < answers.len() && (#[trigger] answers[i]) is Some ==> b.1 <= (answers[i]->0).1,
        best_of(answers) is None ==> forall|i: int|
            0 <= i < answers.len() ==> (#[trigger] answers[i]) is None,
    decreases answers.len(),
{
    if answers.len() > 0 {
        let d = answers.drop_last();
        law_best_is_fastest(d);
        assert forall|i: int| 0 <= i < d.len() implies #[trigger] d[i] == answers[i] by {}
        assert(answers[answers.len() - 1] == answers.last());
        if let Some(b) = best_of(answers) {
            if best_of(d) == Some(b) {
                let j = choose|j: int| 0 <= j < d.len() && d[j] == Some(b);
                assert(answers[j] == Some(b));
            }
            assert forall|i: int| 0 <= i < answers.len() && (#[trigger] answers[i]) is Some implies b.1
                <= (answers[i]->0).1 by {
                if i < d.len() {
                    assert(d[i] == answers[i]);
                }
            }
        } else {
            assert forall|i: int| 0 <= i < answers.len() implies (#[trigger] answers[i]) is None by {
                if i < d.len() {
                    assert(d[i] == answers[i]);
                }
            }
        }
    }
}

/// Among candidates that are equally fast, the one that comes first is taken:
/// no candidate before it is as fast, and none behind it is faster.
pub proof fn law_first_of_the_fastest_is_taken(answers: Seq<Option<(usize, u32)>>) -> (k: int)
    requires
        best_of(answers) is Some,
    ensures
        0 <= k < answers.len(),
        answers[k] == best_of(answers),
        forall|i: int|
            0 <= i < k && (#[trigger] answers[i]) is Some ==> (answers[k]->0).1 < (answers[i]->0).1,
        forall|i: int|
            k < i < answers.len() && (#[trigger] answers[i]) is Some ==> (answers[k]->0).1 <= (
            answers[i]->0).1,
    decreases answers.len(),
{
    let d = answers.drop_last();
    let n = answers.len() - 1;
    let last = answers[n];
    law_best_is_fastest(d);
    assert(forall|i: int| 0 <= i < n ==> #[trigger] d[i] == answers[i]);
    if best_of(d) is Some && !(last is Some && (last->0).1 < (best_of(d)->0).1) {
        let k = law_first_of_the_fastest_is_taken(d);
        assert(answers[k] == d[k]);
        assert forall|i: int| 0 <= i < k && (#[trigger] answers[i]) is Some implies (answers[k]->0).1
            < (answers[i]->0).1 by {
            assert(d[i] == answers[i]);
        }
        assert forall|i: int| k < i < answers.len() && (#[trigger] answers[i]) is Some implies (
        answers[k]->0).1 <= (answers[i]->0).1 by {
            if i < n {
                assert(d[i] == answers[i]);
            }
        }
        k
    } else {
        assert forall|i: int| 0 <= i < n && (#[trigger] answers[i]) is Some implies (answers[n]->0).1
            < (answers[i]->0).1 by {
            assert(d[i] == answers[i]);
        }
        n
    }
}

/// A tracker without failures: at least one is needed to switch.
pub open spec fn fresh_tracker(threshold: u32) -> FailureTracker {
    FailureTracker {
        threshold: if threshold == 0 {
            1
        } else {
            threshold
        },
        consecutive: 0,
    }
}

/// One failure more, and whether there are enough.
pub open spec fn one_more(before: FailureTracker, r: bool, after: FailureTracker) -> bool {
    &&& after == (FailureTracker { consecutive: (before.consecutive + 1) as u32, ..before })
    &&& r == (before.consecutive + 1 >= before.threshold)
}

/// The seconds between two probes.
pub open spec fn interval_of(config: HealthCheckConfig) -> u64 {
    if config.interval_secs < 5 {
        5
    } else if config.interval_secs > 3600 {
        3600
    } else {
        config.interval_secs
    }
}

/// What a probe comes to.
pub open spec fn probed(
    before: HealthRun,
    result: Result<u32, String>,
    r: ProbeOutcome,
    after: HealthRun,
) -> bool {
    &&& after == after_probe(before, result is Ok)
    &&& r.failover == fails_over(before, result is Ok)
    &&& r.event == (match result {
        Ok(ms) => HealthEvent::ProbeOk { latency_ms: ms },
        Err(e) => HealthEvent::ProbeFailed {
            consecutive_failures: (before.tracker.consecutive + 1) as u32,
            error: e,
        },
    })
}

/// What the search for a better node comes to.
pub open spec fn is_failover(best: Option<(usize, u32)>, r: Failover) -> bool {
    match best {
        Some((index, ms)) => r == (Failover::Build { index, latency_ms: ms }),
        None => r matches Failover::Nothing(HealthEvent::SwitchFailed { reason }) && reason@
            == "no reachable node among candidates"@,
    }
}

/// Failures in a row are counted up to the threshold, where the node is switched if that is
/// wanted, and never before; an answer starts the count anew.
pub proof fn law_failures_in_a_row_switch(
    before: HealthRun,
    result: Result<u32, String>,
    r: ProbeOutcome,
    after: HealthRun,
)
    requires
        before.tracker.consecutive < u32::MAX,
        probed(before, result, r, after),
    ensures
        result matches Ok(ms) ==> !r.failover && after.tracker.consecutive == 0 && r.event
            == (HealthEvent::ProbeOk { latency_ms: ms }),
        result matches Err(e) ==> r.event == (HealthEvent::ProbeFailed {
            consecutive_failures: (before.tracker.consecutive + 1) as u32,
            error: e,
        }),
        result is Err && before.config.auto_switch && before.tracker.consecutive + 1
            >= before.tracker.threshold ==> r.failover && after.tracker.consecutive == 0,
        result is Err && (!before.config.auto_switch || before.tracker.consecutive + 1
            < before.tracker.threshold) ==> !r.failover && after.tracker.consecutive
            == before.tracker.consecutive + 1,
        after.config == before.config,
        after.tracker.threshold == before.tracker.threshold,
{
}

/// A tracker says yes at the threshold and from then on, and with a threshold of zero at the
/// first failure.
pub proof fn law_tracker_counts(threshold: u32, before: FailureTracker, r: bool, after: FailureTracker)
    requires
        before.consecutive < u32::MAX,
        before.threshold == fresh_tracker(threshold).threshold,
        one_more(before, r, after),
    ensures
        fresh_tracker(threshold).consecutive == 0,
        after.consecutive == before.consecutive + 1,
        r <==> after.consecutive >= threshold,
{
}

/// The pause between probes is what was asked for, but neither under five seconds nor over an
/// hour.
pub proof fn law_interval_is_kept_in_bounds(config: HealthCheckConfig)
    ensures
        5 <= interval_of(config) <= 60 * 60,
        5 <= config.interval_secs <= 60 * 60 ==> interval_of(config) == config.interval_secs,
        config.interval_secs < 5 ==> interval_of(config) == 5,
        config.interval_secs > 60 * 60 ==> interval_of(config) == 60 * 60,
{
}

/// A node that was found is built, and only where none was found is that reported.
pub proof fn law_found_node_is_built(best: Option<(usize, u32)>, r: Failover)
    requires
        is_failover(best, r),
    ensures
        best matches Some(b) ==> (r matches Failover::Build { index, latency_ms } && index == b.0
            && latency_ms == b.1),
        best is None ==> r is Nothing,
{
}

} // verus!
