//! Connections and traffic, counted.

use vstd::prelude::*;

use crate::proxy::vmess;

verus! {

broadcast use {
    vstd::seq::group_seq_axioms,
    vstd::slice::group_slice_axioms,
    vstd::string::group_string_axioms,
    vstd::std_specs::vec::group_vec_axioms,
};

/// How many connections are remembered.
pub const RECENT_CONNECTIONS_CAP: usize = 120;

/// The state of the proxy.
#[derive(Debug, Clone, PartialEq)]
pub enum ProxyState {
    Disconnected,
    Connecting,
    Connected,
    Error(String),
}

/// A connection that was accepted.
#[derive(Debug, Clone)]
pub struct ConnectionRecord {
    /// Host and port of the target.
    pub dest: String,
    /// The protocol over which it came.
    pub proto: &'static str,
    /// When it was accepted, in seconds since the epoch.
    pub started_unix: u64,
    /// Bytes that were sent, once it is closed.
    pub bytes_up: u64,
    /// Bytes that were received, once it is closed.
    pub bytes_down: u64,
    pub active: bool,
}

/// A connection that was accepted.
#[verifier::ext_equal]
pub struct RecordModel {
    pub dest: Seq<char>,
    pub proto: Seq<char>,
    pub started_unix: u64,
    pub bytes_up: u64,
    pub bytes_down: u64,
    pub active: bool,
}

impl View for ConnectionRecord {
    type V = RecordModel;

    open spec fn view(&self) -> RecordModel {
        RecordModel {
            dest: self.dest@,
            proto: self.proto@,
            started_unix: self.started_unix,
            bytes_up: self.bytes_up,
            bytes_down: self.bytes_down,
            active: self.active,
        }
    }
}

impl ConnectionRecord {
    /// A copy with the same contents.
    pub fn duplicate(&self) -> (r: Self)
        ensures
            r == *self,
    {
        ConnectionRecord {
            dest: self.dest.clone(),
            proto: self.proto,
            started_unix: self.started_unix,
            bytes_up: self.bytes_up,
            bytes_down: self.bytes_down,
            active: self.active,
        }
    }
}

/// What records hold.
pub open spec fn record_models(v: Seq<ConnectionRecord>) -> Seq<RecordModel> {
    v.map_values(|r: ConnectionRecord| r@)
}

/// Counters, and the connections that were accepted last.
#[derive(Debug)]
pub struct ProxyStats {
    pub active_connections: u64,
    pub total_connections: u64,
    pub bytes_sent: u64,
    pub bytes_received: u64,
    /// The newest first.
    pub recent: Vec<ConnectionRecord>,
}

/// Counters, and the connections that were accepted last.
#[verifier::ext_equal]
pub struct StatsModel {
    pub active: u64,
    pub total: u64,
    pub sent: u64,
    pub received: u64,
    pub recent: Seq<RecordModel>,
}

impl View for ProxyStats {
    type V = StatsModel;

    open spec fn view(&self) -> StatsModel {
        StatsModel {
            active: self.active_connections,
            total: self.total_connections,
            sent: self.bytes_sent,
            received: self.bytes_received,
            recent: record_models(self.recent@),
        }
    }
}

/// No connections and no traffic.
pub open spec fn no_stats() -> StatsModel {
    StatsModel { active: 0, total: 0, sent: 0, received: 0, recent: seq![] }
}

/// A sum of counters, which start again from zero beyond their limit.
pub open spec fn wrapped(a: u64, b: u64) -> u64 {
    if a + b > u64::MAX {
        (a + b - 0x1_0000_0000_0000_0000) as u64
    } else {
        (a + b) as u64
    }
}

/// A connection that is open.
pub open spec fn open_record(dest: Seq<char>, proto: Seq<char>, started_unix: u64) -> RecordModel {
    RecordModel { dest, proto, started_unix, bytes_up: 0, bytes_down: 0, active: true }
}

/// The counters once a connection was accepted.
pub open spec fn recorded(m: StatsModel, r: RecordModel) -> StatsModel {
    StatsModel {
        total: wrapped(m.total, 1),
        recent: if m.recent.len() >= RECENT_CONNECTIONS_CAP {
            seq![r] + m.recent.take(RECENT_CONNECTIONS_CAP - 1)
        } else {
            seq![r] + m.recent
        },
        ..m
    }
}

/// Where the connection with a number stands, if it is still remembered: the
/// newest has the highest number and stands first.
pub open spec fn slot_of(m: StatsModel, id: u64) -> Option<int> {
    let last = if m.total == 0 {
        0
    } else {
        m.total - 1
    };
    if id <= last && last - id < m.recent.len() {
        Some(last - id)
    } else {
        None
    }
}

/// A connection once it is closed.
pub open spec fn closed_record(r: RecordModel, up: u64, down: u64) -> RecordModel {
    RecordModel { active: false, bytes_up: up, bytes_down: down, ..r }
}

/// The counters once a connection was closed.
pub open spec fn closed(m: StatsModel, id: u64, up: u64, down: u64) -> StatsModel {
    StatsModel {
        sent: wrapped(m.sent, up),
        received: wrapped(m.received, down),
        recent: match slot_of(m, id) {
            Some(i) => m.recent.update(i, closed_record(m.recent[i], up, down)),
            None => m.recent,
        },
        ..m
    }
}

/// One connection more is open.
pub open spec fn joined(m: StatsModel) -> StatsModel {
    StatsModel { active: wrapped(m.active, 1), ..m }
}

/// One connection less is open.
pub open spec fn parted(m: StatsModel) -> StatsModel {
    StatsModel { active: wrapped(m.active, u64::MAX), ..m }
}

/// So many bytes more were sent and received.
pub open spec fn carried(m: StatsModel, sent: u64, received: u64) -> StatsModel {
    StatsModel { sent: wrapped(m.sent, sent), received: wrapped(m.received, received), ..m }
}

/// The bytes up and down that a connection is closed with: those that were
/// carried, and none where it failed.
pub fn closed_after(done: Option<(u64, u64)>) -> (r: (u64, u64))
    ensures
        r == (match done {
            Some(counts) => counts,
            None => (0u64, 0u64),
        }),
{
    match done {
        Some(counts) => counts,
        None => (0, 0),
    }
}

fn wrapping_sum(a: u64, b: u64) -> (r: u64)
    ensures
        r == wrapped(a, b),
{
    if a > u64::MAX - b {
        (a - (u64::MAX - b)) - 1
    } else {
        a + b
    }
}

/// The records for which the answers are yes, up to a limit.
pub open spec fn picked(recent: Seq<RecordModel>, answers: Seq<bool>, limit: int) -> Seq<RecordModel>
    decreases answers.len(),
{
    if answers.len() == 0 {
        seq![]
    } else {
        let before = picked(recent, answers.drop_last(), limit);
        if answers.last() && before.len() < limit {
            before.push(recent[answers.len() - 1])
        } else {
            before
        }
    }
}

impl Default for ProxyStats {
    fn default() -> (r: Self)
        ensures
            r.wf(),
            r@ == no_stats(),
    {
        ProxyStats::new()
    }
}

impl ProxyStats {
    /// No more connections are remembered than the limit.
    pub open spec fn wf(self) -> bool {
        self.recent@.len() <= RECENT_CONNECTIONS_CAP
    }

    /// No connections and no traffic.
    pub fn new() -> (r: Self)
        ensures
            r.wf(),
            r@ == no_stats(),
    {
        let r = ProxyStats {
            active_connections: 0,
            total_connections: 0,
            bytes_sent: 0,
            bytes_received: 0,
            recent: Vec::new(),
        };
        assert(r@ =~= no_stats());
        r
    }

    /// How many connections are open.
    pub fn active_connections(&self) -> (r: u64)
        ensures
            r == self@.active,
    {
        self.active_connections
    }

    /// How many connections were accepted.
    pub fn total_connections(&self) -> (r: u64)
        ensures
            r == self@.total,
    {
        self.total_connections
    }

    /// How many bytes were sent.
    pub fn bytes_sent(&self) -> (r: u64)
        ensures
            r == self@.sent,
    {
        self.bytes_sent
    }

    /// How many bytes were received.
    pub fn bytes_received(&self) -> (r: u64)
        ensures
            r == self@.received,
    {
        self.bytes_received
    }

    /// A connection was opened.
    pub fn add_connection(&mut self)
        ensures
            final(self)@ == joined(old(self)@),
            final(self).recent == old(self).recent,
    {
        self.active_connections = wrapping_sum(self.active_connections, 1);
    }

    /// A connection is no longer open.
    pub fn remove_connection(&mut self)
        ensures
            final(self)@ == parted(old(self)@),
            final(self).recent == old(self).recent,
    {
        self.active_connections = wrapping_sum(self.active_connections, u64::MAX);
    }

    /// Bytes were sent and received.
    pub fn add_bytes(&mut self, sent: u64, received: u64)
        ensures
            final(self)@ == carried(old(self)@, sent, received),
            final(self).recent == old(self).recent,
    {
        self.bytes_sent = wrapping_sum(self.bytes_sent, sent);
        self.bytes_received = wrapping_sum(self.bytes_received, received);
    }

    /// Begins again with no connections and no traffic.
    pub fn reset(&mut self)
        ensures
            final(self).wf(),
            final(self)@ == no_stats(),
    {
        self.active_connections = 0;
        self.total_connections = 0;
        self.bytes_sent = 0;
        self.bytes_received = 0;
        self.recent = Vec::new();
        assert(self@ =~= no_stats());
    }

    /// A connection was accepted at the given time. It gets the number of
    /// those before it.
    pub fn record_connection_at(&mut self, dest: String, proto: &'static str, started_unix: u64) -> (r:
        u64)
        requires
            old(self).wf(),
        ensures
            final(self).wf(),
            final(self)@ == recorded(old(self)@, open_record(dest@, proto@, started_unix)),
            r == old(self)@.total,
    {
        let ghost m = self@;
        let ghost rec = open_record(dest@, proto@, started_unix);
        let id: u64 = self.total_connections;
        self.total_connections = wrapping_sum(id, 1);
        if self.recent.len() >= RECENT_CONNECTIONS_CAP {
            let _ = self.recent.pop();
            assert(record_models(self.recent@) =~= m.recent.take(RECENT_CONNECTIONS_CAP - 1));
        }
        let ghost kept = record_models(self.recent@);
        self.recent.insert(
            0,
            ConnectionRecord {
                dest,
                proto,
                started_unix,
                bytes_up: 0,
                bytes_down: 0,
                active: true,
            },
        );
        assert(record_models(self.recent@) =~= seq![rec] + kept);
        id
    }

    /// A connection was accepted now.
    pub fn record_connection(&mut self, dest: String, proto: &'static str) -> (r: u64)
        requires
            old(self).wf(),
        ensures
            final(self).wf(),
            exists|now: u64|
                final(self)@ == recorded(
                    old(self)@,
                    #[trigger] open_record(dest@, proto@, now),
                ),
            r == old(self)@.total,
    {
        let now = vmess::unix_seconds();
        self.record_connection_at(dest, proto, now)
    }

    /// The connection with a number was closed, after so many bytes.
    pub fn close_connection(&mut self, id: u64, bytes_up: u64, bytes_down: u64)
        requires
            old(self).wf(),
        ensures
            final(self).wf(),
            final(self)@ == closed(old(self)@, id, bytes_up, bytes_down),
    {
        let ghost m = self@;
        self.bytes_sent = wrapping_sum(self.bytes_sent, bytes_up);
        self.bytes_received = wrapping_sum(self.bytes_received, bytes_down);
        let last: u64 = if self.total_connections == 0 {
            0
        } else {
            self.total_connections - 1
        };
        assert(m.recent.len() == self.recent@.len());
        if id <= last && last - id < self.recent.len() as u64 {
            let i: usize = (last - id) as usize;
            let mut rec = self.recent[i].duplicate();
            rec.active = false;
            rec.bytes_up = bytes_up;
            rec.bytes_down = bytes_down;
            self.recent.set(i, rec);
            assert(record_models(self.recent@) =~= m.recent.update(
                i as int,
                closed_record(m.recent[i as int], bytes_up, bytes_down),
            ));
        }
    }

    /// The connections that were accepted last, newest first: those that
    /// `keep` chooses, up to a limit.
    pub fn recent_connections<F: Fn(&ConnectionRecord) -> bool>(&self, limit: usize, keep: F) -> (r:
        Vec<ConnectionRecord>)
        requires
            forall|rec: &ConnectionRecord| #[trigger] keep.requires((rec,)),
        ensures
            exists|answers: Seq<bool>|
                answers.len() <= self@.recent.len() && (answers.len() == self@.recent.len()
                    || r@.len() == limit) && (forall|i: int|
                    0 <= i < answers.len() ==> keep.ensures(
                        (&self.recent@[i],),
                        #[trigger] answers[i],
                    )) && record_models(r@) == #[trigger] picked(
                    self@.recent,
                    answers,
                    limit as int,
                ),
    {
        let ghost mut answers: Seq<bool> = seq![];
        let mut out: Vec<ConnectionRecord> = Vec::new();
        let mut i: usize = 0;
        assert(record_models(out@) =~= picked(self@.recent, answers, limit as int));
        while i < self.recent.len() && out.len() < limit
            invariant
                forall|rec: &ConnectionRecord| #[trigger] keep.requires((rec,)),
                i <= self.recent@.len(),
                out@.len() <= limit,
                answers.len() == i,
                forall|k: int|
                    0 <= k < answers.len() ==> keep.ensures(
                        (&self.recent@[k],),
                        #[trigger] answers[k],
                    ),
                record_models(out@) == picked(self@.recent, answers, limit as int),
            decreases self.recent@.len() - i,
        {
            let rec = &self.recent[i];
            let yes = keep(rec);
            let ghost before = record_models(out@);
            proof {
                let next = answers.push(yes);
                assert(next.drop_last() =~= answers);
                answers = next;
            }
            if yes {
                out.push(rec.duplicate());
                assert(record_models(out@) =~= before.push(self@.recent[i as int]));
            }
            i = i + 1;
        }
        out
    }
}

/// Numbers are handed out in order, one after another.
pub proof fn law_ids_are_dense(m: StatsModel, r: RecordModel)
    requires
        m.total < u64::MAX,
    ensures
        recorded(m, r).total == m.total + 1,
        slot_of(recorded(m, r), m.total) == Some(0int),
        recorded(m, r).recent[0] == r,
{
}

/// A connection keeps its number as others follow it, until it is forgotten:
/// its number leads to its record.
pub proof fn law_number_leads_to_its_record(m: StatsModel, id: u64, r: RecordModel)
    requires
        m.total < u64::MAX,
        0 < m.total,
        m.recent.len() <= RECENT_CONNECTIONS_CAP,
        slot_of(m, id) is Some,
        slot_of(m, id)->0 + 1 < RECENT_CONNECTIONS_CAP,
    ensures
        slot_of(recorded(m, r), id) == Some(slot_of(m, id)->0 + 1),
        recorded(m, r).recent[slot_of(m, id)->0 + 1] == m.recent[slot_of(m, id)->0],
{
}

/// Closing a connection changes its record and no other, and adds its bytes
/// to the totals.
pub proof fn law_close_touches_one_record(m: StatsModel, id: u64, up: u64, down: u64, i: int)
    requires
        slot_of(m, id) is Some,
        0 <= i < m.recent.len(),
        m.sent + up <= u64::MAX,
        m.received + down <= u64::MAX,
    ensures
        ({
            let n = closed(m, id, up, down);
            &&& i == slot_of(m, id)->0 ==> n.recent[i] == closed_record(m.recent[i], up, down)
            &&& i != slot_of(m, id)->0 ==> n.recent[i] == m.recent[i]
            &&& n.sent == m.sent + up
            &&& n.received == m.received + down
        }),
{
}

/// A connection that comes and goes leaves the number of open ones as it was,
/// and while it is there it counts as one more; nothing else changes.
pub proof fn law_open_connections_are_counted(m: StatsModel)
    ensures
        parted(joined(m)) == m,
        m.active < u64::MAX ==> joined(m) == (StatsModel { active: (m.active + 1) as u64, ..m }),
        m.active > 0 ==> parted(m) == (StatsModel { active: (m.active - 1) as u64, ..m }),
{
}

/// Bytes that are counted are added to those of their direction, and to
/// nothing else.
pub proof fn law_bytes_are_added_up(m: StatsModel, sent: u64, received: u64)
    requires
        m.sent + sent <= u64::MAX,
        m.received + received <= u64::MAX,
    ensures
        carried(m, sent, received) == (StatsModel {
            sent: (m.sent + sent) as u64,
            received: (m.received + received) as u64,
            ..m
        }),
{
}

/// A connection that is recorded is the newest of those that are shown, as an
/// open one without bytes; the others move back by one, and beyond 120 the
/// oldest is gone.
pub proof fn law_newest_connection_comes_first(
    m: StatsModel,
    dest: Seq<char>,
    proto: Seq<char>,
    now: u64,
    i: int,
)
    requires
        m.total < u64::MAX,
        m.recent.len() <= 120,
        0 <= i < 119,
        i < m.recent.len(),
    ensures
        ({
            let n = recorded(m, open_record(dest, proto, now));
            &&& n.total == m.total + 1
            &&& n.active == m.active
            &&& n.recent.len() == (if m.recent.len() < 120 {
                m.recent.len() + 1
            } else {
                120
            })
            &&& n.recent[0].dest == dest
            &&& n.recent[0].proto == proto
            &&& n.recent[0].started_unix == now
            &&& n.recent[0].active
            &&& n.recent[0].bytes_up == 0
            &&& n.recent[0].bytes_down == 0
            &&& n.recent[i + 1] == m.recent[i]
        }),
{
}

/// A connection that is closed is no longer open, and shows the bytes that it
/// sent and received; where it began, where to and how stays.
pub proof fn law_closed_connection_shows_its_bytes(m: StatsModel, id: u64, up: u64, down: u64)
    requires
        m.recent.len() <= 120,
        id < m.total,
        m.total - id <= m.recent.len(),
    ensures
        ({
            let i = m.total - 1 - id;
            let r = closed(m, id, up, down).recent[i];
            &&& !r.active
            &&& r.bytes_up == up
            &&& r.bytes_down == down
            &&& r.dest == m.recent[i].dest
            &&& r.proto == m.recent[i].proto
            &&& r.started_unix == m.recent[i].started_unix
        }),
{
}

/// Of the records that are chosen, the first come first, up to the limit: where
/// all are chosen, they are the newest ones, and where none is, there are none.
pub proof fn law_chosen_records_come_in_order(recent: Seq<RecordModel>, answers: Seq<bool>, limit: int)
    requires
        answers.len() <= recent.len(),
        0 <= limit,
    ensures
        picked(recent, answers, limit).len() <= limit,
        (forall|i: int| 0 <= i < answers.len() ==> #[trigger] answers[i]) ==> picked(
            recent,
            answers,
            limit,
        ) == recent.take(
            if answers.len() < limit {
                answers.len() as int
            } else {
                limit
            },
        ),
        (forall|i: int| 0 <= i < answers.len() ==> !#[trigger] answers[i]) ==> picked(
            recent,
            answers,
            limit,
        ).len() == 0,
        forall|r: RecordModel| #[trigger]
            picked(recent, answers, limit).contains(r) ==> exists|i: int|
                0 <= i < answers.len() && #[trigger] answers[i] && recent[i] == r,
    decreases answers.len(),
{
    let p = picked(recent, answers, limit);
    if answers.len() > 0 {
        let d = answers.drop_last();
        let q = picked(recent, d, limit);
        law_chosen_records_come_in_order(recent, d, limit);
        assert(forall|i: int| 0 <= i < d.len() ==> #[trigger] d[i] == answers[i]);
        let n = answers.len() as int;
        if forall|i: int| 0 <= i < answers.len() ==> #[trigger] answers[i] {
            assert(answers[n - 1]);
            if q.len() < limit {
                assert(recent.take(n) =~= recent.take(n - 1).push(recent[n - 1]));
            }
        }
        if forall|i: int| 0 <= i < answers.len() ==> !#[trigger] answers[i] {
            assert(!answers[n - 1]);
        }
        assert forall|r: RecordModel| #[trigger] p.contains(r) implies exists|i: int|
            0 <= i < answers.len() && #[trigger] answers[i] && recent[i] == r by {
            let k = choose|k: int| 0 <= k < p.len() && p[k] == r;
            if k < q.len() {
                assert(q[k] == r);
                assert(q.contains(r));
                let i = choose|i: int| 0 <= i < d.len() && #[trigger] d[i] && recent[i] == r;
                assert(answers[i]);
            } else {
                assert(answers[n - 1]);
            }
        }
    } else {
        assert(recent.take(0) =~= seq![]);
    }
}

} // verus!
