//! Which servers need the classic REALITY handshake, and how that is found
//! out.
//!
//! A server that cannot read the hybrid key share passes the connection on to
//! the site that it imitates. The first connection to a server finds that out
//! for all: others wait for its outcome. What is found out is remembered.

use vstd::prelude::*;

use crate::proxy::transport;
use crate::proxy::transport::TlsConnFactory;
use crate::table;
use crate::table::TextMap;
use crate::text;

verus! {

broadcast use {
    vstd::seq::group_seq_axioms,
    vstd::map::group_map_axioms,
    vstd::set::group_set_axioms,
    vstd::slice::group_slice_axioms,
    vstd::string::group_string_axioms,
    vstd::std_specs::vec::group_vec_axioms,
};

/// The words by which the error of a passed-on handshake is known.
pub const FALLBACK_MARK: &'static str = "Ed25519 SPKI not found";

/// What is known of servers.
pub struct RealityRegistry {
    /// The servers that need the classic handshake.
    pub classic: TextMap<()>,
    /// The servers that are being probed, each with the number of its probe.
    pub inflight: TextMap<u64>,
    /// The number of the next probe.
    pub next_probe: u64,
}

/// What is known of servers.
#[verifier::ext_equal]
pub struct RegistryModel {
    pub classic: Set<Seq<char>>,
    pub inflight: Map<Seq<char>, u64>,
    pub next_probe: u64,
}

impl View for RealityRegistry {
    type V = RegistryModel;

    open spec fn view(&self) -> RegistryModel {
        RegistryModel {
            classic: self.classic@.dom(),
            inflight: self.inflight@,
            next_probe: self.next_probe,
        }
    }
}

/// Whether a connection probes a server itself or waits for another one.
#[derive(Debug, Clone, Copy, PartialEq, Eq, Structural)]
pub enum RealityProbe {
    /// No probe ran; this connection's probe has the number.
    Leader(u64),
    /// The probe with the number runs.
    Follower(u64),
}

/// The answer to a connection that wants to probe a server.
pub open spec fn probe_of(m: RegistryModel, key: Seq<char>) -> RealityProbe {
    if m.inflight.contains_key(key) {
        RealityProbe::Follower(m.inflight[key])
    } else {
        RealityProbe::Leader(m.next_probe)
    }
}

/// The registry once a connection has asked to probe a server.
pub open spec fn probing(m: RegistryModel, key: Seq<char>) -> RegistryModel {
    if m.inflight.contains_key(key) {
        m
    } else {
        RegistryModel {
            inflight: m.inflight.insert(key, m.next_probe),
            next_probe: (m.next_probe + 1) as u64,
            ..m
        }
    }
}

/// The registry once a server is known to need the classic handshake.
pub open spec fn marked(m: RegistryModel, key: Seq<char>) -> RegistryModel {
    RegistryModel { classic: m.classic.insert(key), ..m }
}

/// The registry once a probe is over. Only the entry of this very probe goes.
pub open spec fn probed(m: RegistryModel, key: Seq<char>, probe: u64, classic: bool) -> RegistryModel {
    RegistryModel {
        classic: if classic {
            m.classic.insert(key)
        } else {
            m.classic
        },
        inflight: if m.inflight.contains_key(key) && m.inflight[key] == probe {
            m.inflight.remove(key)
        } else {
            m.inflight
        },
        ..m
    }
}

impl RealityRegistry {
    /// Every server stands once in each map.
    pub open spec fn wf(self) -> bool {
        self.classic.wf() && self.inflight.wf()
    }

    /// Another probe can be numbered.
    pub open spec fn has_room(self) -> bool {
        self.next_probe < u64::MAX
    }

    /// A registry that knows of no server.
    pub fn new() -> (r: Self)
        ensures
            r.wf(),
            r@ == (RegistryModel { classic: set![], inflight: map![], next_probe: 0 }),
    {
        let r = RealityRegistry { classic: TextMap::new(), inflight: TextMap::new(), next_probe: 0 };
        assert(r@.classic =~= set![]);
        assert(r@.inflight =~= map![]);
        r
    }

    /// The server needs the classic handshake.
    pub fn server_needs_classic_reality(&self, server: &str, port: u16) -> (r: bool)
        requires
            self.wf(),
        ensures
            r == self@.classic.contains(transport::server_key_text(server@, port)),
    {
        let key = transport::server_key(server, port);
        self.classic.get(key.as_str()).is_some()
    }

    /// Remembers that the server needs the classic handshake, and says
    /// whether that is new.
    pub fn mark_server_needs_classic_reality(&mut self, server: &str, port: u16) -> (r: bool)
        requires
            old(self).wf(),
        ensures
            final(self).wf(),
            final(self)@ == marked(old(self)@, transport::server_key_text(server@, port)),
            r == !old(self)@.classic.contains(transport::server_key_text(server@, port)),
    {
        let key = transport::server_key(server, port);
        let known = self.classic.get(key.as_str()).is_some();
        self.classic.insert(key.as_str(), ());
        assert(self@.classic =~= old(self)@.classic.insert(key@));
        !known
    }

    /// Asks to probe a server. The first to ask leads, the others follow.
    pub fn begin_reality_probe(&mut self, server: &str, port: u16) -> (r: RealityProbe)
        requires
            old(self).wf(),
            old(self).has_room(),
        ensures
            final(self).wf(),
            r == probe_of(old(self)@, transport::server_key_text(server@, port)),
            final(self)@ == probing(old(self)@, transport::server_key_text(server@, port)),
    {
        let key = transport::server_key(server, port);
        match self.inflight.get(key.as_str()) {
            Some(n) => RealityProbe::Follower(*n),
            None => {
                let n: u64 = self.next_probe;
                self.inflight.insert(key.as_str(), n);
                self.next_probe = n + 1;
                RealityProbe::Leader(n)
            },
        }
    }

    /// Ends a probe, and says whether a server is newly known to need the
    /// classic handshake.
    pub fn finish_reality_probe(&mut self, server: &str, port: u16, probe: u64, classic: bool) -> (r:
        bool)
        requires
            old(self).wf(),
        ensures
            final(self).wf(),
            final(self)@ == probed(
                old(self)@,
                transport::server_key_text(server@, port),
                probe,
                classic,
            ),
            r == (classic && !old(self)@.classic.contains(
                transport::server_key_text(server@, port),
            )),
    {
        let mut fresh = false;
        if classic {
            fresh = self.mark_server_needs_classic_reality(server, port);
        }
        let key = transport::server_key(server, port);
        let same = match self.inflight.get(key.as_str()) {
            Some(n) => *n == probe,
            None => false,
        };
        if same {
            let _ = self.inflight.remove(key.as_str());
        }
        fresh
    }
}

/// Of any number of connections that ask while a probe runs, none leads.
pub proof fn law_one_leader(m: RegistryModel, key: Seq<char>)
    ensures
        probe_of(probing(m, key), key) is Follower,
        probe_of(m, key) is Leader ==> probe_of(probing(m, key), key) == RealityProbe::Follower(
            m.next_probe,
        ),
{
}

/// Once the leader's probe is over, the next connection leads again, and a
/// server that was found to need the classic handshake stays so.
pub proof fn law_probe_is_released(
    m: RegistryModel,
    key: Seq<char>,
    other: Seq<char>,
    probe: u64,
    classic: bool,
)
    requires
        m.inflight.contains_key(key),
        m.inflight[key] == probe,
    ensures
        probe_of(probed(m, key, probe, classic), key) is Leader,
        classic ==> probed(m, key, probe, classic).classic.contains(key),
        m.classic.contains(other) ==> probed(m, key, probe, classic).classic.contains(other),
{
}

// ---------------------------------------------------------------------------
// Opening a connection
// ---------------------------------------------------------------------------

/// The handshake of an attempt.
#[derive(Debug, Clone, Copy, PartialEq, Eq, Structural)]
pub enum Handshake {
    /// TLS, or none where the transport has no TLS.
    Ordinary,
    /// REALITY with both key shares.
    Hybrid,
    /// REALITY with the classic key share alone.
    Classic,
}

/// How the opening of a connection begins.
#[derive(Debug)]
pub enum Opening {
    /// The configuration is not usable.
    Refused(String),
    /// Wait for the probe with this number, for a short time, then go on.
    WaitFor(u64),
    /// Dial with this handshake, as the leader of a probe where there is a
    /// number.
    Dial { handshake: Handshake, probe: Option<u64> },
}

/// What follows from an attempt.
#[derive(Debug, Clone, Copy, PartialEq, Eq, Structural)]
pub enum Outcome {
    /// The connection is ready for the next layer: WebSocket where the flag
    /// says so, otherwise the protocol.
    Connected { upgrade: bool },
    /// Dial once more, with the classic handshake.
    RetryClassic,
    /// The error of the attempt stands.
    Failed,
}

/// What follows from an attempt, and what others are to be told.
#[derive(Debug, Clone, Copy, PartialEq, Eq, Structural)]
pub struct Dialled {
    pub outcome: Outcome,
    /// The probe whose followers are to be woken.
    pub wake: Option<u64>,
    /// The list of servers has grown and is to be saved.
    pub save: bool,
}

/// The handshake where no probe decides.
pub open spec fn plain_handshake(f: transport::FactoryModel) -> Handshake {
    if f.reality is Some {
        Handshake::Hybrid
    } else {
        Handshake::Ordinary
    }
}

/// The key of the factory's server.
pub open spec fn factory_key(f: transport::FactoryModel) -> Seq<char> {
    transport::server_key_text(f.server, f.port)
}

/// How the opening of a connection begins.
pub open spec fn opening_of(f: transport::FactoryModel, m: RegistryModel, r: Opening) -> bool {
    match f.reality_error {
        Some(e) => r matches Opening::Refused(t) && t@ == "REALITY configuration error: "@ + e,
        None => if f.reality_classic is None {
            r == Opening::Dial { handshake: plain_handshake(f), probe: None }
        } else if m.classic.contains(factory_key(f)) {
            r == Opening::Dial { handshake: Handshake::Classic, probe: None }
        } else {
            match probe_of(m, factory_key(f)) {
                RealityProbe::Leader(n) => r == Opening::Dial {
                    handshake: plain_handshake(f),
                    probe: Some(n),
                },
                RealityProbe::Follower(n) => r == Opening::WaitFor(n),
            }
        },
    }
}

/// The registry once the opening of a connection has begun.
pub open spec fn opened(f: transport::FactoryModel, m: RegistryModel) -> RegistryModel {
    if f.reality_error is None && f.reality_classic is Some && !m.classic.contains(factory_key(f)) {
        probing(m, factory_key(f))
    } else {
        m
    }
}

/// The handshake and the probe of a connection that has waited.
pub open spec fn resumed(f: transport::FactoryModel, m: RegistryModel) -> (Handshake, Option<u64>) {
    if m.classic.contains(factory_key(f)) {
        (Handshake::Classic, None)
    } else {
        (
            plain_handshake(f),
            match probe_of(m, factory_key(f)) {
                RealityProbe::Leader(n) => Some(n),
                RealityProbe::Follower(_) => None,
            },
        )
    }
}

/// The attempt was passed on: it failed with the tell-tale words, and there
/// is a classic handshake to turn to.
pub open spec fn passed_on(f: transport::FactoryModel, error: Option<Seq<char>>) -> bool {
    f.reality_classic is Some && error is Some && text::contains_text(error->0, FALLBACK_MARK@)
}

/// What follows from an attempt.
pub open spec fn dialled_of(
    f: transport::FactoryModel,
    m: RegistryModel,
    probe: Option<u64>,
    error: Option<Seq<char>>,
) -> Dialled {
    Dialled {
        outcome: if error is None {
            Outcome::Connected { upgrade: f.ws is Some }
        } else if passed_on(f, error) {
            Outcome::RetryClassic
        } else {
            Outcome::Failed
        },
        wake: probe,
        save: passed_on(f, error) && !m.classic.contains(factory_key(f)),
    }
}

/// The registry once an attempt is over.
pub open spec fn settled(
    f: transport::FactoryModel,
    m: RegistryModel,
    probe: Option<u64>,
    error: Option<Seq<char>>,
) -> RegistryModel {
    match probe {
        Some(n) => probed(m, factory_key(f), n, passed_on(f, error)),
        None => if passed_on(f, error) {
            marked(m, factory_key(f))
        } else {
            m
        },
    }
}

/// An optional text as characters.
pub open spec fn opt_str(s: Option<&str>) -> Option<Seq<char>> {
    match s {
        Some(t) => Some(t@),
        None => None,
    }
}

impl TlsConnFactory {
    fn plain(&self) -> (r: Handshake)
        ensures
            r == plain_handshake(self@),
    {
        if self.reality_connector.is_some() {
            Handshake::Hybrid
        } else {
            Handshake::Ordinary
        }
    }

    /// Begins the opening of a connection.
    pub fn create(&self, registry: &mut RealityRegistry) -> (r: Opening)
        requires
            old(registry).wf(),
            old(registry).has_room(),
        ensures
            final(registry).wf(),
            opening_of(self@, old(registry)@, r),
            final(registry)@ == opened(self@, old(registry)@),
    {
        match &self.reality_error {
            Some(e) => {
                let mut out: Vec<char> = Vec::new();
                text::append_str(&mut out, "REALITY configuration error: ");
                text::append_str(&mut out, e.as_str());
                return Opening::Refused(text::string_of(out.as_slice()));
            },
            None => {},
        }
        if self.reality_classic_connector.is_none() {
            return Opening::Dial { handshake: self.plain(), probe: None };
        }
        if registry.server_needs_classic_reality(self.server.as_str(), self.port) {
            return Opening::Dial { handshake: Handshake::Classic, probe: None };
        }
        match registry.begin_reality_probe(self.server.as_str(), self.port) {
            RealityProbe::Leader(n) => Opening::Dial { handshake: self.plain(), probe: Some(n) },
            RealityProbe::Follower(n) => Opening::WaitFor(n),
        }
    }

    /// Goes on after the wait for another connection's probe.
    pub fn resume(&self, registry: &mut RealityRegistry) -> (r: (Handshake, Option<u64>))
        requires
            old(registry).wf(),
            old(registry).has_room(),
        ensures
            final(registry).wf(),
            r == resumed(self@, old(registry)@),
            final(registry)@ == (if old(registry)@.classic.contains(factory_key(self@)) {
                old(registry)@
            } else {
                probing(old(registry)@, factory_key(self@))
            }),
    {
        if registry.server_needs_classic_reality(self.server.as_str(), self.port) {
            return (Handshake::Classic, None);
        }
        match registry.begin_reality_probe(self.server.as_str(), self.port) {
            RealityProbe::Leader(n) => (self.plain(), Some(n)),
            RealityProbe::Follower(_) => (self.plain(), None),
        }
    }

    /// The attempt is over, with the text of its error if it failed.
    pub fn dialled(
        &self,
        registry: &mut RealityRegistry,
        probe: Option<u64>,
        error: Option<&str>,
    ) -> (r: Dialled)
        requires
            old(registry).wf(),
        ensures
            final(registry).wf(),
            r == dialled_of(self@, old(registry)@, probe, opt_str(error)),
            final(registry)@ == settled(self@, old(registry)@, probe, opt_str(error)),
    {
        let fallback = match error {
            Some(e) => self.reality_classic_connector.is_some() && text::contains_str(
                text::chars_of(e).as_slice(),
                FALLBACK_MARK,
            ),
            None => false,
        };
        let save = match probe {
            Some(n) => registry.finish_reality_probe(self.server.as_str(), self.port, n, fallback),
            None => if fallback {
                registry.mark_server_needs_classic_reality(self.server.as_str(), self.port)
            } else {
                false
            },
        };
        let outcome = if error.is_none() {
            Outcome::Connected { upgrade: self.ws.is_some() }
        } else if fallback {
            Outcome::RetryClassic
        } else {
            Outcome::Failed
        };
        Dialled { outcome, wake: probe, save }
    }

    /// The second attempt, with the classic handshake, is over.
    pub fn retried(&self, succeeded: bool) -> (r: Outcome)
        ensures
            r == (if succeeded {
                Outcome::Connected { upgrade: self@.ws is Some }
            } else {
                Outcome::Failed
            }),
    {
        if succeeded {
            Outcome::Connected { upgrade: self.ws.is_some() }
        } else {
            Outcome::Failed
        }
    }
}

/// A connection that leads a probe wakes its followers and frees the server
/// for another probe, however its attempt ends.
pub proof fn law_leader_always_wakes(
    f: transport::FactoryModel,
    m: RegistryModel,
    error: Option<Seq<char>>,
)
    requires
        f.reality_error is None,
        f.reality_classic is Some,
        !m.classic.contains(factory_key(f)),
        probe_of(m, factory_key(f)) is Leader,
    ensures
        ({
            let n = m.next_probe;
            let after = settled(f, opened(f, m), Some(n), error);
            &&& dialled_of(f, opened(f, m), Some(n), error).wake == Some(n)
            &&& !after.inflight.contains_key(factory_key(f))
        }),
{
}

/// After one passed-on handshake every later connection to the server goes
/// straight to the classic handshake.
pub proof fn law_fallback_is_learnt(
    f: transport::FactoryModel,
    m: RegistryModel,
    probe: Option<u64>,
    error: Option<Seq<char>>,
    r: Opening,
)
    requires
        f.reality_error is None,
        passed_on(f, error),
        opening_of(f, settled(f, m, probe, error), r),
    ensures
        r == (Opening::Dial { handshake: Handshake::Classic, probe: None }),
        resumed(f, settled(f, m, probe, error)) == (Handshake::Classic, None::<u64>),
{
}

// ---------------------------------------------------------------------------
// The saved list
// ---------------------------------------------------------------------------

/// The order of texts by their characters.
pub open spec fn text_le(a: Seq<char>, b: Seq<char>) -> bool
    decreases a.len(),
{
    if a.len() == 0 {
        true
    } else if b.len() == 0 {
        false
    } else if a[0] != b[0] {
        a[0] < b[0]
    } else {
        text_le(a.skip(1), b.skip(1))
    }
}

fn le_from(a: &[char], b: &[char], from: usize) -> (r: bool)
    requires
        from <= a@.len(),
        from <= b@.len(),
    ensures
        r == text_le(a@.skip(from as int), b@.skip(from as int)),
    decreases a@.len() - from,
{
    if from == a.len() {
        return true;
    }
    if from == b.len() {
        return false;
    }
    if a[from] != b[from] {
        return a[from] < b[from];
    }
    assert(a@.skip(from as int).skip(1) =~= a@.skip(from + 1));
    assert(b@.skip(from as int).skip(1) =~= b@.skip(from + 1));
    le_from(a, b, from + 1)
}

/// The texts are in order.
pub open spec fn in_order(v: Seq<Seq<char>>) -> bool {
    forall|i: int, j: int| 0 <= i < j < v.len() ==> text_le(#[trigger] v[i], #[trigger] v[j])
}

proof fn lemma_le_total(a: Seq<char>, b: Seq<char>)
    ensures
        text_le(a, b) || text_le(b, a),
    decreases a.len(),
{
    if a.len() > 0 && b.len() > 0 {
        lemma_le_total(a.skip(1), b.skip(1));
    }
}

proof fn lemma_le_transitive(a: Seq<char>, b: Seq<char>, c: Seq<char>)
    requires
        text_le(a, b),
        text_le(b, c),
    ensures
        text_le(a, c),
    decreases a.len(),
{
    if a.len() > 0 && b.len() > 0 && c.len() > 0 && a[0] == b[0] && b[0] == c[0] {
        lemma_le_transitive(a.skip(1), b.skip(1), c.skip(1));
    }
}

/// The texts, joined by line feeds.
pub open spec fn joined_lines(v: Seq<Seq<char>>) -> Seq<char>
    decreases v.len(),
{
    if v.len() == 0 {
        seq![]
    } else if v.len() == 1 {
        v[0]
    } else {
        joined_lines(v.drop_last()) + seq!['\n'] + v.last()
    }
}

/// The keys of pairs.
pub open spec fn keys_of(s: Seq<(String, ())>) -> Seq<Seq<char>> {
    s.map_values(|p: (String, ())| p.0@)
}

/// Puts a text into its place among others that are in order.
fn insert_sorted(list: &mut Vec<Vec<char>>, item: Vec<char>)
    requires
        in_order(text::texts(old(list)@)),
    ensures
        in_order(text::texts(final(list)@)),
        text::texts(final(list)@).to_multiset() == text::texts(old(list)@).to_multiset().insert(
            item@,
        ),
{
    let ghost before = text::texts(list@);
    let mut i: usize = 0;
    while i < list.len() && le_from(list[i].as_slice(), item.as_slice(), 0)
        invariant
            i <= list@.len(),
            before == text::texts(list@),
            in_order(before),
            forall|k: int| 0 <= k < i ==> text_le(#[trigger] before[k], item@),
        decreases list@.len() - i,
    {
        assert(list@[i as int]@.skip(0) =~= before[i as int]);
        assert(item@.skip(0) =~= item@);
        i = i + 1;
    }
    let ghost at = i as int;
    proof {
        if at < before.len() {
            assert(list@[at]@.skip(0) =~= before[at]);
            assert(item@.skip(0) =~= item@);
            lemma_le_total(before[at], item@);
        }
        assert forall|k: int| at <= k < before.len() implies text_le(item@, #[trigger] before[k]) by {
            if k > at {
                lemma_le_transitive(item@, before[at], before[k]);
            }
        }
    }
    let ghost word = item@;
    list.insert(i, item);
    proof {
        let after = text::texts(list@);
        assert(after =~= before.insert(at, word));
        before.to_multiset_ensures();
        vstd::seq_lib::lemma_multiset_commutative(before.take(at), before.skip(at));
        assert(before.take(at) + before.skip(at) =~= before);
        assert(after =~= before.take(at).push(word) + before.skip(at));
        vstd::seq_lib::lemma_multiset_commutative(before.take(at).push(word), before.skip(at));
        before.take(at).to_multiset_ensures();
        assert(after.to_multiset() =~= before.to_multiset().insert(word));
        assert forall|a: int, b: int| 0 <= a < b < after.len() implies text_le(
            #[trigger] after[a],
            #[trigger] after[b],
        ) by {
            if a < at && b < at {
                assert(after[a] == before[a] && after[b] == before[b]);
            } else if a < at && b > at {
                assert(after[a] == before[a] && after[b] == before[b - 1]);
            } else if a > at {
                assert(after[a] == before[a - 1] && after[b] == before[b - 1]);
            } else if a == at {
                assert(after[b] == before[b - 1]);
            } else {
                assert(after[a] == before[a]);
            }
        }
    }
}

/// A file that holds the servers, each on its own line, in order.
pub open spec fn is_saved_list(servers: Seq<Seq<char>>, body: Seq<char>) -> bool {
    exists|lines: Seq<Seq<char>>|
        lines.to_multiset() == servers.to_multiset() && in_order(lines) && #[trigger] joined_lines(
            lines,
        ) == body
}

/// The file in which the servers that need the classic handshake are saved.
pub fn saved_list(registry: &RealityRegistry) -> (r: String)
    ensures
        is_saved_list(keys_of(registry.classic.entries@), r@),
{
    let mut lines: Vec<Vec<char>> = Vec::new();
    let ghost all = registry.classic.entries@;
    let mut i: usize = 0;
    assert(keys_of(all.take(0)) =~= seq![]);
    assert(text::texts(lines@) =~= seq![]);
    while i < registry.classic.entries.len()
        invariant
            all == registry.classic.entries@,
            i <= all.len(),
            in_order(text::texts(lines@)),
            text::texts(lines@).to_multiset() == keys_of(all.take(i as int)).to_multiset(),
        decreases all.len() - i,
    {
        let word = text::chars_of(registry.classic.entries[i].0.as_str());
        proof {
            let k = keys_of(all.take(i as int));
            assert(keys_of(all.take(i + 1)) =~= k.push(word@));
            k.to_multiset_ensures();
        }
        insert_sorted(&mut lines, word);
        i = i + 1;
    }
    assert(all.take(i as int) =~= all);
    let ghost sorted = text::texts(lines@);
    let mut out: Vec<char> = Vec::new();
    let mut j: usize = 0;
    while j < lines.len()
        invariant
            j <= lines@.len(),
            sorted == text::texts(lines@),
            out@ == joined_lines(sorted.take(j as int)),
        decreases lines@.len() - j,
    {
        if j > 0 {
            out.push('\n');
        }
        text::append_chars(&mut out, lines[j].as_slice());
        proof {
            let t = sorted.take(j + 1);
            assert(t.drop_last() =~= sorted.take(j as int));
            assert(t.last() == lines@[j as int]@);
            if j == 0 {
                assert(out@ =~= t[0]);
            }
            assert(out@ =~= joined_lines(t));
        }
        j = j + 1;
    }
    assert(sorted.take(j as int) =~= sorted);
    assert(joined_lines(sorted) == out@);
    text::string_of(out.as_slice())
}

/// A line of the file names a server.
pub open spec fn names_server(line: Seq<char>) -> bool {
    let t = text::trimmed(line);
    t.len() > 0 && text::contains_text(t, seq![':'])
}

/// The servers that the lines of a file name.
pub open spec fn listed(lines: Seq<Seq<char>>) -> Set<Seq<char>>
    decreases lines.len(),
{
    if lines.len() == 0 {
        set![]
    } else if names_server(lines.last()) {
        listed(lines.drop_last()).insert(text::trimmed(lines.last()))
    } else {
        listed(lines.drop_last())
    }
}

/// The registry that a saved file gives.
pub fn load_list(body: &str) -> (r: RealityRegistry)
    ensures
        r.wf(),
        r@ == (RegistryModel {
            classic: listed(text::lines_of(body@)),
            inflight: map![],
            next_probe: 0,
        }),
{
    let mut registry = RealityRegistry::new();
    let lines = text::split_lines(text::chars_of(body).as_slice());
    let ghost all = text::texts(lines@);
    let mut i: usize = 0;
    assert(registry@.classic =~= listed(all.take(0)));
    while i < lines.len()
        invariant
            registry.wf(),
            registry.next_probe == 0,
            registry@.inflight == Map::<Seq<char>, u64>::empty(),
            i <= lines@.len(),
            all == text::texts(lines@),
            registry@.classic == listed(all.take(i as int)),
        decreases lines@.len() - i,
    {
        let line = text::trim(lines[i].as_slice());
        let colon = [':'];
        assert(colon@ =~= seq![':']);
        proof {
            let t = all.take(i + 1);
            assert(t.drop_last() =~= all.take(i as int));
            assert(t.last() == lines@[i as int]@);
        }
        if line.len() > 0 && text::contains(line, colon.as_slice()) {
            let key = text::string_of(line);
            let ghost known = registry@.classic;
            registry.classic.insert(key.as_str(), ());
            assert(registry@.classic =~= known.insert(line@));
        }
        i = i + 1;
    }
    assert(all.take(i as int) =~= all);
    registry
}

/// A key that stands on a line of its own: it names a server, in one line and
/// without white space around it.
pub open spec fn is_line(key: Seq<char>) -> bool {
    names_server(key) && text::trimmed(key) == key && !key.contains('\n')
}

proof fn lemma_joined_front(v: Seq<Seq<char>>)
    requires
        v.len() >= 2,
    ensures
        joined_lines(v) == v[0] + seq!['\n'] + joined_lines(v.drop_first()),
    decreases v.len(),
{
    let d = v.drop_last();
    let t = v.drop_first();
    if v.len() == 2 {
        assert(joined_lines(d) == v[0]);
        assert(joined_lines(t) == v[1]);
    } else {
        lemma_joined_front(d);
        assert(d.drop_first() =~= t.drop_last());
        assert(t.last() == v.last());
    }
    assert(joined_lines(v) =~= v[0] + seq!['\n'] + joined_lines(t));
}

proof fn lemma_lines_of_joined(v: Seq<Seq<char>>)
    requires
        forall|i: int| 0 <= i < v.len() ==> is_line(#[trigger] v[i]),
    ensures
        text::lines_of(joined_lines(v)) == v,
    decreases v.len(),
{
    let s = joined_lines(v);
    if v.len() == 0 {
        assert(text::lines_of(s) =~= v);
    } else {
        let first = v[0];
        assert(is_line(first));
        text::lemma_trimmed_ends(first);
        assert forall|k: int| 0 <= k < first.len() implies first[k] != '\n' by {
            assert(first.contains(first[k]));
        }
        if v.len() == 1 {
            text::lemma_first_index_unique(s, '\n', s.len() as int);
            assert(text::lines_of(s) =~= v);
        } else {
            let t = v.drop_first();
            lemma_joined_front(v);
            assert forall|i: int| 0 <= i < t.len() implies is_line(#[trigger] t[i]) by {
                assert(t[i] == v[i + 1]);
            }
            lemma_lines_of_joined(t);
            let n = first.len() as int;
            assert forall|k: int| 0 <= k < n implies s[k] != '\n' by {
                assert(s[k] == first[k]);
            }
            text::lemma_first_index_unique(s, '\n', n);
            assert(s.take(n) =~= first);
            assert(s.skip(n + 1) =~= joined_lines(t));
            assert(text::strip_cr(first) == first);
            assert(text::lines_of(s) =~= v);
        }
    }
}

proof fn lemma_listed(v: Seq<Seq<char>>, key: Seq<char>)
    requires
        forall|i: int| 0 <= i < v.len() ==> is_line(#[trigger] v[i]),
    ensures
        listed(v).contains(key) == v.contains(key),
    decreases v.len(),
{
    if v.len() > 0 {
        let d = v.drop_last();
        assert forall|i: int| 0 <= i < d.len() implies is_line(#[trigger] d[i]) by {
            assert(d[i] == v[i]);
        }
        lemma_listed(d, key);
        assert(is_line(v[v.len() - 1]));
        if d.contains(key) {
            let i = choose|i: int| 0 <= i < d.len() && d[i] == key;
            assert(v[i] == key);
        }
        if v.contains(key) && key != v.last() {
            let i = choose|i: int| 0 <= i < v.len() && v[i] == key;
            assert(d[i] == key);
        }
    }
}

proof fn lemma_keys(s: Seq<(String, ())>, key: Seq<char>)
    ensures
        keys_of(s).contains(key) == table::pairs_map(s).contains_key(key),
    decreases s.len(),
{
    if s.len() > 0 {
        let d = s.drop_last();
        lemma_keys(d, key);
        assert(keys_of(s).last() == s.last().0@);
        if keys_of(d).contains(key) {
            let i = choose|i: int| 0 <= i < keys_of(d).len() && keys_of(d)[i] == key;
            assert(keys_of(s)[i] == key);
        }
        if keys_of(s).contains(key) && key != s.last().0@ {
            let i = choose|i: int| 0 <= i < keys_of(s).len() && keys_of(s)[i] == key;
            assert(keys_of(d)[i] == key);
        }
    }
}

/// What is saved is read back: the servers that need the classic handshake
/// are the same after a restart.
pub proof fn law_saved_list_is_read_back(registry: RealityRegistry, body: Seq<char>)
    requires
        is_saved_list(keys_of(registry.classic.entries@), body),
        forall|key: Seq<char>| #[trigger] registry@.classic.contains(key) ==> is_line(key),
    ensures
        listed(text::lines_of(body)) == registry@.classic,
{
    let servers = keys_of(registry.classic.entries@);
    let lines = choose|lines: Seq<Seq<char>>|
        lines.to_multiset() == servers.to_multiset() && in_order(lines) && #[trigger] joined_lines(
            lines,
        ) == body;
    lines.to_multiset_ensures();
    servers.to_multiset_ensures();
    assert forall|key: Seq<char>| #[trigger] lines.contains(key) == registry@.classic.contains(
        key,
    ) by {
        lemma_keys(registry.classic.entries@, key);
        assert(lines.to_multiset().count(key) == servers.to_multiset().count(key));
        assert(lines.contains(key) == servers.contains(key));
    }
    assert forall|i: int| 0 <= i < lines.len() implies is_line(#[trigger] lines[i]) by {
        assert(lines.contains(lines[i]));
        assert(registry@.classic.contains(lines[i]));
    }
    lemma_lines_of_joined(lines);
    assert forall|key: Seq<char>| listed(lines).contains(key) == registry@.classic.contains(key) by {
        lemma_listed(lines, key);
    }
    assert(listed(lines) =~= registry@.classic);
}

/// The key of a server stands on a line of its own, where the server's name
/// is one line that does not begin with white space.
pub proof fn law_server_key_is_a_line(server: Seq<char>, port: u16)
    requires
        !server.contains('\n'),
        server.len() > 0 ==> !text::is_space(server[0]),
    ensures
        is_line(transport::server_key_text(server, port)),
{
    let key = transport::server_key_text(server, port);
    let d = text::decimal(port as nat);
    let f = |c: char| text::is_space(c);
    text::lemma_decimal(port as nat);
    assert('0' <= d.last() <= '9');
    assert(key.last() == d.last());
    text::lemma_drop_start(key, f, 0);
    assert(key.skip(0) =~= key);
    text::lemma_drop_end(key, f, key.len() as int);
    assert(key.take(key.len() as int) =~= key);
    assert(text::trimmed(key) == key);
    assert forall|k: int| 0 <= k < key.len() implies key[k] != '\n' by {
        if k < server.len() {
            assert(server.contains(server[k]));
        } else if k > server.len() {
            assert(key[k] == d[k - server.len() - 1]);
        }
    }
    let i = server.len() as int;
    assert(key.subrange(i, i + 1) =~= seq![':']);
    assert(text::occurs_at(key, seq![':'], i));
}

/// A first connection without anything learnt goes out with the handshake of the configuration:
/// REALITY where it is configured, plain TLS otherwise. A configuration that cannot be used is
/// refused before anything is dialled.
pub proof fn law_first_dial_follows_the_configuration(
    f: transport::FactoryModel,
    m: RegistryModel,
    r: Opening,
)
    requires
        opening_of(f, m, r),
        !m.classic.contains(factory_key(f)),
        !m.inflight.contains_key(factory_key(f)),
    ensures
        f.reality_error is Some ==> r is Refused && opened(f, m) == m,
        f.reality_error is None && f.reality is Some ==> (r matches Opening::Dial {
            handshake,
            probe,
        } && handshake is Hybrid && probe is Some == f.reality_classic is Some),
        f.reality_error is None && f.reality is None && f.reality_classic is None ==> r
            == (Opening::Dial { handshake: Handshake::Ordinary, probe: None }),
{
}

/// A handshake that worked is a connection, over which a WebSocket is opened where one is
/// configured. One that failed for want of the server's signature is tried again in the classic
/// way, and the server is remembered for it; any other failure is final and teaches nothing.
pub proof fn law_only_one_failure_is_tried_again(
    f: transport::FactoryModel,
    m: RegistryModel,
    probe: Option<u64>,
    error: Option<Seq<char>>,
)
    ensures
        ({
            let d = dialled_of(f, m, probe, error);
            let after = settled(f, m, probe, error);
            let marked = error is Some && f.reality_classic is Some && text::contains_text(
                error->0,
                "Ed25519 SPKI not found"@,
            );
            &&& d.wake == probe
            &&& error is None ==> d.outcome == (Outcome::Connected { upgrade: f.ws is Some })
                && after.classic == m.classic && !d.save
            &&& marked ==> d.outcome is RetryClassic && after.classic == m.classic.insert(
                factory_key(f),
            ) && d.save == !m.classic.contains(factory_key(f))
            &&& error is Some && !marked ==> d.outcome is Failed && after.classic == m.classic
                && !d.save
        }),
{
}

/// Servers are told apart by their names and ports.
pub proof fn law_servers_are_told_apart(a: transport::FactoryModel, b: transport::FactoryModel)
    requires
        !(a.server == b.server && a.port == b.port),
    ensures
        factory_key(a) != factory_key(b),
{
    transport::lemma_server_key(a.server, a.port);
    transport::lemma_server_key(b.server, b.port);
}

} // verus!
