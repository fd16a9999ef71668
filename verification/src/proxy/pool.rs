//! Connections that are opened before they are needed.

use vstd::prelude::*;

verus! {

broadcast use {
    vstd::seq::group_seq_axioms,
    vstd::slice::group_slice_axioms,
    vstd::std_specs::vec::group_vec_axioms,
};

/// Nanoseconds after which an unused connection is too old.
pub const DEFAULT_MAX_AGE_NANOS: u64 = 120_000_000_000;

/// How many connections are kept.
pub const DEFAULT_CAPACITY: usize = 16;

/// How many connections are opened at a time.
pub const FILL_CONCURRENCY: usize = 4;

/// After so many rounds without a single success no more is tried.
pub const MAX_FAILED_ROUNDS: u32 = 3;

/// Milliseconds between a round without success and the next.
pub const FAILED_ROUND_PAUSE_MS: u64 = 200;

/// A connection and when it was opened, in nanoseconds.
#[derive(Debug)]
pub struct PooledConn<T> {
    pub stream: T,
    pub created: u64,
}

/// The connections that are kept, the oldest first.
#[derive(Debug)]
pub struct ConnPool<T> {
    pub conns: Vec<PooledConn<T>>,
    pub capacity: usize,
    pub warmed: bool,
    pub filling: bool,
}

/// The connection is not too old.
pub open spec fn is_fresh<T>(c: PooledConn<T>, now: u64) -> bool {
    now - c.created < DEFAULT_MAX_AGE_NANOS
}

/// How many connections at the front are too old.
pub open spec fn stale_run<T>(s: Seq<PooledConn<T>>, now: u64) -> int
    decreases s.len(),
{
    if s.len() == 0 || is_fresh(s[0], now) {
        0
    } else {
        1 + stale_run(s.drop_first(), now)
    }
}

/// The connections that are not too old.
pub open spec fn fresh_only<T>(s: Seq<PooledConn<T>>, now: u64) -> Seq<PooledConn<T>>
    decreases s.len(),
{
    if s.len() == 0 {
        seq![]
    } else if is_fresh(s.last(), now) {
        fresh_only(s.drop_last(), now).push(s.last())
    } else {
        fresh_only(s.drop_last(), now)
    }
}

/// What a request for a connection comes to.
#[derive(Debug)]
pub struct Taken<T> {
    /// The connection, if one was ready. Otherwise one has to be opened.
    pub stream: Option<T>,
    /// The pool is to be filled in the background.
    pub fill: bool,
}

/// What follows from a round of the filling.
#[derive(Debug, Clone, Copy, PartialEq, Eq, Structural)]
pub enum RoundStep {
    /// The next round follows at once.
    Next,
    /// The next round follows after a pause.
    Pause,
    /// No more is tried.
    GiveUp,
}

/// A filling of the pool.
#[derive(Debug, Clone, Copy, PartialEq, Eq, Structural)]
pub struct Filling {
    /// Rounds without a success, in a row.
    pub failed_rounds: u32,
}

/// What a request gets, and what is kept: the first connection that is not too
/// old, and those behind it.
pub open spec fn served<T>(s: Seq<PooledConn<T>>, now: u64) -> (Option<T>, Seq<PooledConn<T>>) {
    let k = stale_run(s, now);
    if k < s.len() {
        (Some(s[k].stream), s.skip(k + 1))
    } else {
        (None, seq![])
    }
}

fn fresh_at(created: u64, now: u64) -> (r: bool)
    ensures
        r == (now - created < DEFAULT_MAX_AGE_NANOS),
{
    now < created || now - created < DEFAULT_MAX_AGE_NANOS
}

impl<T> ConnPool<T> {
    /// No more connections are kept than the pool is made for.
    pub open spec fn wf(self) -> bool {
        self.conns@.len() <= self.capacity
    }

    /// A filling of the pool is to begin.
    pub open spec fn wants_fill(self) -> bool {
        self.capacity > 0 && !self.filling
    }

    /// A pool of the usual size. The flag says whether it can be filled in
    /// the background at once, and the answer whether that is to be done.
    pub fn new(can_spawn: bool) -> (r: (Self, bool))
        ensures
            r.0.wf(),
            r.0.conns@.len() == 0,
            r.0.capacity == DEFAULT_CAPACITY,
            r.0.warmed == can_spawn,
            r.0.filling == can_spawn,
            r.1 == can_spawn,
    {
        Self::with_capacity(DEFAULT_CAPACITY, can_spawn)
    }

    /// A pool that keeps nothing: every connection is opened when asked for.
    pub fn lazy() -> (r: Self)
        ensures
            r.wf(),
            r.conns@.len() == 0,
            r.capacity == 0,
            !r.warmed,
            !r.filling,
    {
        Self::with_capacity(0, true).0
    }

    /// A pool of a given size.
    pub fn with_capacity(capacity: usize, can_spawn: bool) -> (r: (Self, bool))
        ensures
            r.0.wf(),
            r.0.conns@.len() == 0,
            r.0.capacity == capacity,
            r.0.warmed == (capacity > 0 && can_spawn),
            r.0.filling == (capacity > 0 && can_spawn),
            r.1 == (capacity > 0 && can_spawn),
    {
        let fill = capacity > 0 && can_spawn;
        (ConnPool { conns: Vec::new(), capacity, warmed: fill, filling: fill }, fill)
    }

    /// Asks for a filling, and says whether one is to begin: not while another
    /// runs, and never for a pool that keeps nothing.
    pub fn schedule_fill(&mut self) -> (r: bool)
        ensures
            r == old(self).wants_fill(),
            *final(self) == (ConnPool { filling: old(self).filling || r, ..*old(self) }),
    {
        if self.capacity == 0 || self.filling {
            return false;
        }
        self.filling = true;
        true
    }

    /// Takes the oldest connection that is not too old. Older ones are
    /// dropped. The first request, and each that is served, asks for a
    /// filling.
    pub fn get(&mut self, now: u64) -> (r: Taken<T>)
        requires
            old(self).wf(),
        ensures
            final(self).wf(),
            final(self).warmed,
            final(self).capacity == old(self).capacity,
            (r.stream, final(self).conns@) == served(old(self).conns@, now),
            r.fill == asks_for_fill(*old(self), now),
            final(self).filling == (old(self).filling || r.fill),
    {
        let ghost s = self.conns@;
        let ghost before = *self;
        let mut fill = false;
        if !self.warmed {
            self.warmed = true;
            fill = self.schedule_fill();
        }
        let ghost mut k: int = 0;
        assert(s.skip(0) =~= s);
        while self.conns.len() > 0
            invariant
                before == *old(self),
                self.conns@.len() <= self.capacity,
                self.capacity == before.capacity,
                self.warmed,
                s == before.conns@,
                0 <= k <= s.len(),
                self.conns@ == s.skip(k),
                stale_run(s, now) == k + stale_run(s.skip(k), now),
                fill == (!before.warmed && before.wants_fill()),
                self.filling == (before.filling || fill),
            decreases self.conns@.len(),
        {
            let c = self.conns.remove(0);
            assert(c == s[k]);
            assert(s.skip(k)[0] == s[k]);
            assert(self.conns@ =~= s.skip(k + 1));
            if fresh_at(c.created, now) {
                let more = self.schedule_fill();
                return Taken { stream: Some(c.stream), fill: fill || more };
            }
            proof {
                assert(s.skip(k).drop_first() =~= s.skip(k + 1));
                k = k + 1;
            }
        }
        Taken { stream: None, fill }
    }

    /// Drops the connections that are too old.
    pub fn evict_stale(&mut self, now: u64)
        requires
            old(self).wf(),
        ensures
            final(self).wf(),
            final(self).conns@ == fresh_only(old(self).conns@, now),
            final(self).capacity == old(self).capacity,
            final(self).warmed == old(self).warmed,
            final(self).filling == old(self).filling,
    {
        let ghost s = self.conns@;
        let mut kept: Vec<PooledConn<T>> = Vec::new();
        let ghost mut k: int = 0;
        assert(s.take(0) =~= seq![]);
        assert(s.skip(0) =~= s);
        while self.conns.len() > 0
            invariant
                0 <= k <= s.len(),
                s.len() <= self.capacity,
                self.conns@ == s.skip(k),
                kept@ == fresh_only(s.take(k), now),
                kept@.len() <= k,
                self.capacity == old(self).capacity,
                self.warmed == old(self).warmed,
                self.filling == old(self).filling,
            decreases self.conns@.len(),
        {
            let c = self.conns.remove(0);
            proof {
                assert(c == s[k]);
                assert(self.conns@ =~= s.skip(k + 1));
                assert(s.take(k + 1).drop_last() =~= s.take(k));
                assert(s.take(k + 1).last() == s[k]);
                k = k + 1;
            }
            if fresh_at(c.created, now) {
                kept.push(c);
            }
        }
        assert(s.take(k) =~= s);
        self.conns = kept;
    }

    /// How many connections are to be opened in the next round; none where
    /// the pool is full.
    pub fn next_batch(&self) -> (r: usize)
        requires
            self.wf(),
        ensures
            r == batch_of(self.capacity as int, self.conns@.len() as int),
    {
        let deficit: usize = self.capacity - self.conns.len();
        if deficit < FILL_CONCURRENCY {
            deficit
        } else {
            FILL_CONCURRENCY
        }
    }

    /// Keeps a connection that was opened, unless the pool is full.
    pub fn offer(&mut self, stream: T, now: u64) -> (r: Option<T>)
        requires
            old(self).wf(),
        ensures
            final(self).wf(),
            final(self).capacity == old(self).capacity,
            final(self).warmed == old(self).warmed,
            final(self).filling == old(self).filling,
            offered(old(self).conns@, old(self).capacity, stream, now, r, final(self).conns@),
    {
        if self.conns.len() < self.capacity {
            self.conns.push(PooledConn { stream, created: now });
            None
        } else {
            Some(stream)
        }
    }

    /// The filling is over.
    pub fn finish_fill(&mut self)
        ensures
            *final(self) == (ConnPool { filling: false, ..*old(self) }),
    {
        self.filling = false;
    }
}

impl Filling {
    /// A filling at its start.
    pub fn new() -> (r: Self)
        ensures
            r.failed_rounds == 0,
    {
        Filling { failed_rounds: 0 }
    }

    /// A round is over, with so many failures.
    pub fn on_round(&mut self, batch: usize, failures: usize) -> (r: RoundStep)
        requires
            old(self).failed_rounds < MAX_FAILED_ROUNDS,
            failures <= batch,
        ensures
            is_round_step(
                old(self).failed_rounds as nat,
                batch,
                failures,
                r,
                final(self).failed_rounds as nat,
            ),
    {
        if failures < batch {
            self.failed_rounds = 0;
            return RoundStep::Next;
        }
        self.failed_rounds = self.failed_rounds + 1;
        if self.failed_rounds >= MAX_FAILED_ROUNDS {
            RoundStep::GiveUp
        } else {
            RoundStep::Pause
        }
    }
}

proof fn lemma_fresh_only<T>(s: Seq<PooledConn<T>>, now: u64)
    ensures
        fresh_only(s, now).len() <= s.len(),
        forall|i: int|
            0 <= i < fresh_only(s, now).len() ==> is_fresh(#[trigger] fresh_only(s, now)[i], now),
    decreases s.len(),
{
    if s.len() > 0 {
        lemma_fresh_only(s.drop_last(), now);
    }
}

/// No connection that is too old is left once they were dropped.
pub proof fn law_no_stale_connection_is_kept<T>(s: Seq<PooledConn<T>>, now: u64)
    ensures
        forall|i: int|
            0 <= i < fresh_only(s, now).len() ==> is_fresh(#[trigger] fresh_only(s, now)[i], now),
{
    lemma_fresh_only(s, now);
}

/// No connection that is too old is handed out.
pub proof fn law_no_stale_connection_is_used<T>(s: Seq<PooledConn<T>>, now: u64)
    ensures
        0 <= stale_run(s, now) <= s.len(),
        stale_run(s, now) < s.len() ==> is_fresh(s[stale_run(s, now)], now),
    decreases s.len(),
{
    if s.len() > 0 && !is_fresh(s[0], now) {
        law_no_stale_connection_is_used(s.drop_first(), now);
    }
}

proof fn lemma_stale_run<T>(stale: Seq<PooledConn<T>>, rest: Seq<PooledConn<T>>, now: u64)
    requires
        forall|i: int| 0 <= i < stale.len() ==> !is_fresh(#[trigger] stale[i], now),
        rest.len() > 0 ==> is_fresh(rest[0], now),
    ensures
        stale_run(stale + rest, now) == stale.len(),
    decreases stale.len(),
{
    let s = stale + rest;
    if stale.len() > 0 {
        let d = stale.drop_first();
        assert(!is_fresh(stale[0], now));
        assert forall|i: int| 0 <= i < d.len() implies !is_fresh(#[trigger] d[i], now) by {
            assert(d[i] == stale[i + 1]);
        }
        lemma_stale_run(d, rest, now);
        assert(s.drop_first() =~= d + rest);
    }
}

/// A request gets the oldest connection that was opened less than two minutes
/// ago; what is older is gone, and what is younger is kept in order. Where all
/// are older it gets none.
pub proof fn law_oldest_fresh_connection_is_used<T>(
    stale: Seq<PooledConn<T>>,
    c: PooledConn<T>,
    younger: Seq<PooledConn<T>>,
    now: u64,
)
    requires
        forall|i: int|
            0 <= i < stale.len() ==> now >= (#[trigger] stale[i]).created + 120_000_000_000,
        now < c.created + 120_000_000_000,
    ensures
        served(stale + seq![c] + younger, now) == (Some(c.stream), younger),
        served(stale, now) == (None::<T>, Seq::<PooledConn<T>>::empty()),
{
    let s = stale + seq![c] + younger;
    assert forall|i: int| 0 <= i < stale.len() implies !is_fresh(#[trigger] stale[i], now) by {
        assert(now >= stale[i].created + 120_000_000_000);
    }
    let rest = seq![c] + younger;
    lemma_stale_run(stale, rest, now);
    assert(s =~= stale + rest);
    assert(s.skip((stale.len() + 1) as int) =~= younger);
    lemma_stale_run(stale, seq![], now);
    assert(stale + seq![] =~= stale);
}

/// Nothing that was opened less than two minutes ago is dropped, and the order
/// stays.
pub proof fn law_fresh_connections_stay<T>(s: Seq<PooledConn<T>>, now: u64)
    ensures
        fresh_only(s, now) == s.filter(
            |c: PooledConn<T>| now < c.created + 120_000_000_000,
        ),
    decreases s.len(),
{
    reveal(Seq::filter);
    if s.len() > 0 {
        law_fresh_connections_stay(s.drop_last(), now);
    }
}

/// What an offer of a connection comes to.
pub open spec fn offered<T>(
    before: Seq<PooledConn<T>>,
    capacity: usize,
    stream: T,
    now: u64,
    r: Option<T>,
    after: Seq<PooledConn<T>>,
) -> bool {
    &&& before.len() < capacity ==> r is None && after == before.push(
        PooledConn { stream, created: now },
    )
    &&& before.len() == capacity ==> r == Some(stream) && after == before
}

/// What a round of new connections comes to.
pub open spec fn is_round_step(
    failed: nat,
    batch: usize,
    failures: usize,
    r: RoundStep,
    after: nat,
) -> bool {
    &&& failures < batch ==> r == RoundStep::Next && after == 0
    &&& failures == batch ==> after == failed + 1 && r == (if failed + 1 >= MAX_FAILED_ROUNDS {
        RoundStep::GiveUp
    } else {
        RoundStep::Pause
    })
}

/// How many connections are opened at once.
pub open spec fn batch_of(capacity: int, held: int) -> int {
    if capacity - held < FILL_CONCURRENCY {
        capacity - held
    } else {
        FILL_CONCURRENCY as int
    }
}

/// A connection that is offered is kept as the youngest where there is room, and given back
/// where there is none: none is lost, and the pool never holds more than it may.
pub proof fn law_offered_connection_is_kept<T>(
    before: Seq<PooledConn<T>>,
    capacity: usize,
    stream: T,
    now: u64,
    r: Option<T>,
    after: Seq<PooledConn<T>>,
)
    requires
        before.len() <= capacity,
        offered(before, capacity, stream, now, r, after),
    ensures
        after.len() <= capacity,
        r matches Some(s) ==> s == stream && after == before && before.len() == capacity,
        r is None ==> after.len() == before.len() + 1 && after.last().stream == stream
            && after.last().created == now && after.drop_last() == before,
{
    if before.len() < capacity {
        assert(after.drop_last() =~= before);
    }
}

/// What is missing is opened, up to four at once, and no more than the pool has room for.
pub proof fn law_rounds_fill_the_pool(capacity: int, held: int)
    requires
        0 <= held <= capacity,
    ensures
        capacity - held <= 4 ==> batch_of(capacity, held) == capacity - held,
        capacity - held > 4 ==> batch_of(capacity, held) == 4,
{
}

/// One connection that opens is enough to go on at once; a round that fails whole is followed by
/// a pause, and the third in a row ends it.
pub proof fn law_failed_rounds_are_counted(
    failed: nat,
    batch: usize,
    failures: usize,
    r: RoundStep,
    after: nat,
)
    requires
        failures <= batch,
        is_round_step(failed, batch, failures, r, after),
    ensures
        failures < batch ==> r is Next && after == 0,
        failures == batch ==> after == failed + 1 && !(r is Next),
        failures == batch && failed < 2 ==> r is Pause,
        failures == batch && failed >= 2 ==> r is GiveUp,
{
}

/// A request for a connection lets the pool be filled.
pub open spec fn asks_for_fill<T>(pool: ConnPool<T>, now: u64) -> bool {
    let asked = !pool.warmed || stale_run(pool.conns@, now) < pool.conns@.len();
    asked && pool.wants_fill()
}

/// The first request, and every request that takes a connection out, lets the pool be filled,
/// unless that is already going on or the pool may hold nothing.
pub proof fn law_requests_refill_the_pool<T>(pool: ConnPool<T>, now: u64)
    ensures
        pool.capacity == 0 || pool.filling ==> !asks_for_fill(pool, now),
        pool.capacity > 0 && !pool.filling && !pool.warmed ==> asks_for_fill(pool, now),
        pool.capacity > 0 && !pool.filling && pool.warmed ==> asks_for_fill(pool, now) == served(
            pool.conns@,
            now,
        ).0 is Some,
{
}

} // verus!
