//! What the protocols over QUIC share.

use vstd::prelude::*;

use crate::net;
use crate::net::{IpAddr, SocketAddr};
use crate::text;

verus! {

broadcast use {
    vstd::seq::group_seq_axioms,
    vstd::slice::group_slice_axioms,
    vstd::string::group_string_axioms,
    vstd::std_specs::vec::group_vec_axioms,
};

/// Seconds within which a connection has to be set up.
pub const CONNECT_BUDGET_SECS: u64 = 30;

/// What a caller that wants the shared value is told.
#[derive(Debug, Clone, Copy, PartialEq, Eq, Structural)]
pub enum Flight {
    /// There is a value that can be used.
    Ready,
    /// There is none: make one, alone.
    Connect,
}

/// A value that is expensive to make and is made once for all callers.
///
/// Callers look first; one that finds nothing takes the lock and looks again
/// before it makes the value.
#[derive(Debug)]
pub struct SingleFlight<V> {
    pub value: Option<V>,
}

impl<V> SingleFlight<V> {
    /// No value yet.
    pub fn new() -> (r: Self)
        ensures
            r.value is None,
    {
        SingleFlight { value: None }
    }

    /// What a caller is told, given whether a value that is there is alive.
    pub fn look(&self, live: bool) -> (r: Flight)
        ensures
            is_look(self.value is Some, live, r),
    {
        if self.value.is_some() && live {
            Flight::Ready
        } else {
            Flight::Connect
        }
    }

    /// Offers a value that was made. A value that is there and alive stays,
    /// and the new one is handed back.
    pub fn offer(&mut self, fresh: V, live: bool) -> (r: Option<V>)
        ensures
            final(self).value == flight_after(old(self).value, live, Some(fresh)),
            r == (if old(self).value is Some && live {
                Some(fresh)
            } else {
                None
            }),
    {
        if self.value.is_some() && live {
            Some(fresh)
        } else {
            self.value = Some(fresh);
            None
        }
    }

    /// A caller that was told to make the value is done: it made one, or
    /// failed. A failure changes nothing, so that the next caller tries anew.
    pub fn finish<E>(&mut self, made: Result<V, E>, live: bool) -> (r: Result<(), E>)
        ensures
            final(self).value == flight_after(
                old(self).value,
                live,
                match made {
                    Ok(v) => Some(v),
                    Err(_) => None,
                },
            ),
            match made {
                Ok(_) => r is Ok,
                Err(e) => r == Err::<(), E>(e),
            },
    {
        match made {
            Ok(fresh) => {
                let _ = self.offer(fresh, live);
                Ok(())
            },
            Err(e) => Err(e),
        }
    }
}

/// The shared value once a caller is done that made another, or nothing.
pub open spec fn flight_after<V>(value: Option<V>, live: bool, made: Option<V>) -> Option<V> {
    if value is Some && live || made is None {
        value
    } else {
        made
    }
}

/// One caller: whether the value that it finds is alive, and what it makes
/// where it has to make one.
pub struct Caller<V> {
    pub live: bool,
    pub made: Option<V>,
}

/// The caller has to make a value.
pub open spec fn connects<V>(value: Option<V>, c: Caller<V>) -> bool {
    !(value is Some && c.live)
}

/// The value once a caller is done.
pub open spec fn called<V>(value: Option<V>, c: Caller<V>) -> Option<V> {
    if connects(value, c) {
        flight_after(value, false, c.made)
    } else {
        value
    }
}

/// What a caller gets: nothing where it had to make a value and failed.
pub open spec fn obtained<V>(value: Option<V>, c: Caller<V>) -> Option<V> {
    if connects(value, c) {
        c.made
    } else {
        value
    }
}

/// The value once callers are done, one after the other.
pub open spec fn all_called<V>(value: Option<V>, callers: Seq<Caller<V>>) -> Option<V>
    decreases callers.len(),
{
    if callers.len() == 0 {
        value
    } else {
        called(all_called(value, callers.drop_last()), callers.last())
    }
}

/// How many of the callers make a value.
pub open spec fn connections<V>(value: Option<V>, callers: Seq<Caller<V>>) -> nat
    decreases callers.len(),
{
    if callers.len() == 0 {
        0
    } else {
        connections(value, callers.drop_last()) + if connects(
            all_called(value, callers.drop_last()),
            callers.last(),
        ) {
            1nat
        } else {
            0nat
        }
    }
}

/// A value that is alive is never replaced, and no other one is made.
pub proof fn law_live_value_stays<V>(value: Option<V>, c: Caller<V>)
    requires
        value is Some,
        c.live,
    ensures
        !connects(value, c),
        called(value, c) == value,
        obtained(value, c) == value,
        flight_after(value, c.live, c.made) == value,
{
}

/// A caller that fails leaves everything as it was: the next one finds what
/// it found.
pub proof fn law_failure_changes_nothing<V>(value: Option<V>, live: bool, c: Caller<V>)
    requires
        c.made is None,
    ensures
        called(value, c) == value,
        flight_after(value, live, None) == value,
{
}

/// One value is made for all: of callers that find the value alive and would
/// not fail, the first makes it and all get it.
pub proof fn law_one_value_for_all<V>(callers: Seq<Caller<V>>)
    requires
        callers.len() > 0,
        forall|i: int|
            0 <= i < callers.len() ==> (#[trigger] callers[i]).live && callers[i].made is Some,
    ensures
        connections(None, callers) == 1,
        all_called(None, callers) == callers[0].made,
        forall|i: int|
            0 <= i < callers.len() ==> obtained(
                all_called(None, callers.take(i)),
                #[trigger] callers[i],
            ) == callers[0].made,
    decreases callers.len(),
{
    let d = callers.drop_last();
    let last = callers.last();
    assert(callers[callers.len() - 1] == last);
    assert(callers.take(callers.len() - 1) =~= d);
    if d.len() == 0 {
        assert(all_called(None, d) == None::<V>);
        assert(connections(None, d) == 0);
    } else {
        assert forall|i: int| 0 <= i < d.len() implies (#[trigger] d[i]).live && d[i].made is Some by {
            assert(d[i] == callers[i]);
        }
        law_one_value_for_all(d);
        assert(d[0] == callers[0]);
    }
    assert forall|i: int| 0 <= i < callers.len() implies obtained(
        all_called(None, callers.take(i)),
        #[trigger] callers[i],
    ) == callers[0].made by {
        if i < d.len() {
            assert(d[i] == callers[i]);
            assert(d.take(i) =~= callers.take(i));
        }
    }
}

/// The text for a connection that was not set up in time.
pub fn budget_message() -> (r: String)
    ensures
        r@ == "connection setup hung beyond 30s budget"@,
{
    text::string_of(text::chars_of("connection setup hung beyond 30s budget").as_slice())
}

/// The address is one of IPv4.
pub open spec fn is_v4(a: SocketAddr) -> bool {
    a.ip is V4
}

/// The list without an element that equals the one before it.
pub open spec fn without_repeats(s: Seq<SocketAddr>) -> Seq<SocketAddr>
    decreases s.len(),
{
    if s.len() <= 1 {
        s
    } else if s.last() == s[s.len() - 2] {
        without_repeats(s.drop_last())
    } else {
        without_repeats(s.drop_last()).push(s.last())
    }
}

/// IPv4 first, each family in its order, and no address twice in a row.
pub open spec fn preferred(s: Seq<SocketAddr>) -> Seq<SocketAddr> {
    without_repeats(s.filter(|a: SocketAddr| is_v4(a)) + s.filter(|a: SocketAddr| !is_v4(a)))
}

fn same_addr(a: SocketAddr, b: SocketAddr) -> (r: bool)
    ensures
        r == (a == b),
{
    let same_ip = match (a.ip, b.ip) {
        (IpAddr::V4(x), IpAddr::V4(y)) => x == y,
        (IpAddr::V6(x), IpAddr::V6(y)) => x == y,
        _ => false,
    };
    same_ip && a.port == b.port
}

fn v4_addr(a: SocketAddr) -> (r: bool)
    ensures
        r == is_v4(a),
{
    match a.ip {
        IpAddr::V4(_) => true,
        IpAddr::V6(_) => false,
    }
}

/// Only the addresses of one family, in their order.
fn of_family(addrs: &[SocketAddr], v4: bool) -> (r: Vec<SocketAddr>)
    ensures
        r@ == addrs@.filter(|a: SocketAddr| is_v4(a) == v4),
{
    let mut out: Vec<SocketAddr> = Vec::new();
    let mut i: usize = 0;
    let ghost keep = |a: SocketAddr| is_v4(a) == v4;
    assert(addrs@.take(0).filter(keep) =~= seq![]) by {
        reveal(Seq::filter);
    }
    while i < addrs.len()
        invariant
            i <= addrs@.len(),
            keep == (|a: SocketAddr| is_v4(a) == v4),
            out@ == addrs@.take(i as int).filter(keep),
        decreases addrs@.len() - i,
    {
        proof {
            reveal(Seq::filter);
            assert(addrs@.take(i + 1).drop_last() =~= addrs@.take(i as int));
        }
        if v4_addr(addrs[i]) == v4 {
            out.push(addrs[i]);
        }
        i = i + 1;
    }
    assert(addrs@.take(i as int) =~= addrs@);
    out
}

/// The addresses in the order in which they are tried.
pub fn prefer_socket_addrs(addrs: Vec<SocketAddr>) -> (r: Vec<SocketAddr>)
    ensures
        r@ == preferred(addrs@),
{
    let mut sorted = of_family(addrs.as_slice(), true);
    let mut rest = of_family(addrs.as_slice(), false);
    let ghost first = sorted@;
    let ghost second = rest@;
    sorted.append(&mut rest);
    proof {
        assert((|a: SocketAddr| is_v4(a) == true) =~= (|a: SocketAddr| is_v4(a)));
        assert((|a: SocketAddr| is_v4(a) == false) =~= (|a: SocketAddr| !is_v4(a)));
        assert(sorted@ =~= first + second);
    }
    let mut out: Vec<SocketAddr> = Vec::new();
    let mut i: usize = 0;
    while i < sorted.len()
        invariant
            i <= sorted@.len(),
            out@ == without_repeats(sorted@.take(i as int)),
        decreases sorted@.len() - i,
    {
        let ghost t = sorted@.take(i + 1);
        assert(t.drop_last() =~= sorted@.take(i as int));
        if i == 0 {
            out.push(sorted[0]);
            assert(sorted@.take(0) =~= seq![]);
            assert(out@ =~= t);
        } else if !same_addr(sorted[i], sorted[i - 1]) {
            out.push(sorted[i]);
        }
        i = i + 1;
    }
    assert(sorted@.take(i as int) =~= sorted@);
    out
}

proof fn lemma_without_repeats(s: Seq<SocketAddr>)
    ensures
        without_repeats(s).len() <= s.len(),
        s.len() > 0 ==> without_repeats(s).len() > 0 && without_repeats(s).last() == s.last(),
        forall|i: int|
            1 <= i < without_repeats(s).len() ==> (#[trigger] without_repeats(s)[i])
                != without_repeats(s)[i - 1],
    decreases s.len(),
{
    if s.len() > 1 {
        lemma_without_repeats(s.drop_last());
    }
}

/// No address is tried twice in a row.
pub proof fn law_no_address_repeats(s: Seq<SocketAddr>)
    ensures
        forall|i: int|
            1 <= i < preferred(s).len() ==> (#[trigger] preferred(s)[i]) != preferred(s)[i - 1],
{
    lemma_without_repeats(
        s.filter(|a: SocketAddr| is_v4(a)) + s.filter(|a: SocketAddr| !is_v4(a)),
    );
}

/// No IPv6 address stands before an IPv4 address.
pub open spec fn v4_first(s: Seq<SocketAddr>) -> bool {
    forall|i: int, j: int|
        0 <= i < j < s.len() && is_v4(#[trigger] s[j]) ==> is_v4(#[trigger] s[i])
}

proof fn lemma_repeats_keep_order(s: Seq<SocketAddr>)
    requires
        v4_first(s),
    ensures
        v4_first(without_repeats(s)),
        s.len() > 0 && is_v4(s.last()) ==> forall|i: int|
            0 <= i < without_repeats(s).len() ==> is_v4(#[trigger] without_repeats(s)[i]),
    decreases s.len(),
{
    if s.len() > 1 {
        let d = s.drop_last();
        assert forall|i: int, j: int| 0 <= i < j < d.len() && is_v4(#[trigger] d[j]) implies is_v4(
            #[trigger] d[i],
        ) by {
            assert(s[j] == d[j] && s[i] == d[i]);
        }
        if is_v4(s.last()) {
            assert(is_v4(s[s.len() - 1]));
            assert(is_v4(s[s.len() - 2]));
        }
        lemma_repeats_keep_order(d);
    }
}

/// IPv4 addresses are tried before IPv6 addresses.
pub proof fn law_v4_first(s: Seq<SocketAddr>)
    ensures
        v4_first(preferred(s)),
{
    let a = s.filter(|x: SocketAddr| is_v4(x));
    let b = s.filter(|x: SocketAddr| !is_v4(x));
    assert forall|i: int, j: int| 0 <= i < j < (a + b).len() && is_v4(#[trigger] (a + b)[j]) implies is_v4(
        #[trigger] (a + b)[i],
    ) by {
        if j >= a.len() {
            s.lemma_filter_pred(|x: SocketAddr| !is_v4(x), j - a.len());
        } else {
            s.lemma_filter_pred(|x: SocketAddr| is_v4(x), i);
        }
    }
    lemma_repeats_keep_order(a + b);
}

/// What a caller does about the connection.
pub open spec fn is_look(there: bool, live: bool, r: Flight) -> bool {
    r == (if there && live {
        Flight::Ready
    } else {
        Flight::Connect
    })
}

/// A connection is used only where there is one and it lives; else a new one is made.
pub proof fn law_only_live_connections_are_used(there: bool, live: bool, r: Flight)
    requires
        is_look(there, live, r),
    ensures
        r is Ready <==> there && live,
        r is Connect <==> !there || !live,
{
}

/// A new connection takes the place of none and of a dead one, and not of one that lives.
pub proof fn law_new_connection_replaces_a_dead_one<V>(value: Option<V>, made: V)
    ensures
        flight_after(None, true, Some(made)) == Some(made),
        flight_after(value, false, Some(made)) == Some(made),
        value is Some ==> flight_after(value, true, Some(made)) == value,
{
}

/// No address is lost, and none is made up: the order alone changes.
pub proof fn law_every_address_is_tried(s: Seq<SocketAddr>, a: SocketAddr)
    ensures
        preferred(s).contains(a) == s.contains(a),
{
    let f = |x: SocketAddr| is_v4(x);
    let g = |x: SocketAddr| !is_v4(x);
    let both = s.filter(f) + s.filter(g);
    lemma_without_repeats_holds(both, a);
    if s.contains(a) {
        let k = choose|k: int| 0 <= k < s.len() && s[k] == a;
        if is_v4(a) {
            s.lemma_filter_contains(f, k);
            let i = choose|i: int| 0 <= i < s.filter(f).len() && s.filter(f)[i] == a;
            assert(both[i] == a);
        } else {
            s.lemma_filter_contains(g, k);
            let i = choose|i: int| 0 <= i < s.filter(g).len() && s.filter(g)[i] == a;
            assert(both[s.filter(f).len() + i] == a);
        }
    }
    if both.contains(a) {
        let i = choose|i: int| 0 <= i < both.len() && both[i] == a;
        if i < s.filter(f).len() {
            assert(s.filter(f).contains(a));
            s.lemma_filter_contains_rev(f, a);
        } else {
            assert(s.filter(g)[i - s.filter(f).len()] == a);
            s.lemma_filter_contains_rev(g, a);
        }
    }
}

proof fn lemma_without_repeats_holds(s: Seq<SocketAddr>, a: SocketAddr)
    ensures
        without_repeats(s).contains(a) == s.contains(a),
    decreases s.len(),
{
    if s.len() > 1 {
        let front = s.drop_last();
        lemma_without_repeats_holds(front, a);
        assert(s =~= front.push(s.last()));
        if s.contains(a) {
            let i = choose|i: int| 0 <= i < s.len() && s[i] == a;
            if i < front.len() {
                assert(front[i] == a);
            } else if s.last() == s[s.len() - 2] {
                assert(front[s.len() - 2] == a);
            }
        }
        if front.contains(a) {
            let i = choose|i: int| 0 <= i < front.len() && front[i] == a;
            assert(s[i] == a);
        }
        let w = without_repeats(front);
        if s.last() != s[s.len() - 2] {
            if w.contains(a) {
                let i = choose|i: int| 0 <= i < w.len() && w[i] == a;
                assert(w.push(s.last())[i] == a);
            }
            if s.last() == a {
                assert(w.push(s.last())[w.len() as int] == a);
            }
            if w.push(s.last()).contains(a) {
                let i = choose|i: int|
                    0 <= i < w.push(s.last()).len() && w.push(s.last())[i] == a;
                if i < w.len() {
                    assert(w[i] == a);
                } else {
                    assert(s[s.len() - 1] == a);
                }
            }
        }
    }
}

} // verus!
