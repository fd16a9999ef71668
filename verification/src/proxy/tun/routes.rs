//! The routes of the tunnel: set up, kept in step with the node, and taken
//! back.

use vstd::prelude::*;

use crate::net::IpAddr;
use crate::platform::{Platform, System};
use crate::proxy::outbound_bind;
use crate::proxy::outbound_bind::{BindModel, BindState, OutboundBind};
use crate::proxy::tun::commands;
use crate::proxy::tun::commands::TUN_GATEWAY;
use crate::proxy::tun::gateway;
use crate::proxy::tun::plan;
use crate::proxy::tun::plan::{Step, StepModel};
use crate::text;

verus! {

broadcast use {
    vstd::seq::group_seq_axioms,
    vstd::slice::group_slice_axioms,
    vstd::array::group_array_axioms,
    vstd::string::group_string_axioms,
    vstd::std_specs::vec::group_vec_axioms,
};

// ---------------------------------------------------------------------------
// Addresses that go past the tunnel
// ---------------------------------------------------------------------------

/// The IPv4 addresses in a list.
pub open spec fn v4_only(ips: Seq<IpAddr>) -> Seq<u32>
    decreases ips.len(),
{
    if ips.len() == 0 {
        seq![]
    } else {
        match ips.last() {
            IpAddr::V4(a) => v4_only(ips.drop_last()).push(a),
            IpAddr::V6(_) => v4_only(ips.drop_last()),
        }
    }
}

/// The IPv6 addresses in a list.
pub open spec fn v6_only(ips: Seq<IpAddr>) -> Seq<u128>
    decreases ips.len(),
{
    if ips.len() == 0 {
        seq![]
    } else {
        match ips.last() {
            IpAddr::V4(_) => v6_only(ips.drop_last()),
            IpAddr::V6(a) => v6_only(ips.drop_last()).push(a),
        }
    }
}

/// The addresses of a list by family, in their order.
pub fn split_by_family(ips: &[IpAddr]) -> (r: (Vec<u32>, Vec<u128>))
    ensures
        r.0@ == v4_only(ips@),
        r.1@ == v6_only(ips@),
{
    let mut v4: Vec<u32> = Vec::new();
    let mut v6: Vec<u128> = Vec::new();
    let mut i: usize = 0;
    while i < ips.len()
        invariant
            i <= ips@.len(),
            v4@ == v4_only(ips@.take(i as int)),
            v6@ == v6_only(ips@.take(i as int)),
        decreases ips@.len() - i,
    {
        assert(ips@.take(i + 1).drop_last() =~= ips@.take(i as int));
        assert(ips@.take(i + 1).last() == ips@[i as int]);
        match ips[i] {
            IpAddr::V4(a) => v4.push(a),
            IpAddr::V6(a) => v6.push(a),
        }
        i = i + 1;
    }
    assert(ips@.take(i as int) =~= ips@);
    (v4, v6)
}

/// The list with what it lacks of another behind it.
pub open spec fn completed<A>(list: Seq<A>, extra: Seq<A>) -> Seq<A>
    decreases extra.len(),
{
    if extra.len() == 0 {
        list
    } else {
        let r = completed(list, extra.drop_last());
        if r.contains(extra.last()) {
            r
        } else {
            r.push(extra.last())
        }
    }
}

/// What is in one list and not in another.
pub open spec fn without<A>(a: Seq<A>, b: Seq<A>) -> Seq<A>
    decreases a.len(),
{
    if a.len() == 0 {
        seq![]
    } else {
        let r = without(a.drop_last(), b);
        if b.contains(a.last()) {
            r
        } else {
            r.push(a.last())
        }
    }
}

/// The name servers that the program itself asks: 8.8.8.8, 1.1.1.1,
/// 223.5.5.5 and 119.29.29.29.
pub open spec fn dns_v4() -> Seq<u32> {
    seq![0x0808_0808u32, 0x0101_0101u32, 0xdf05_0505u32, 0x771d_1d1du32]
}

/// The same for IPv6: 2001:4860:4860::8888, 2606:4700:4700::1111,
/// 2400:3200::1 and 2402:4e00::.
pub open spec fn dns_v6() -> Seq<u128> {
    seq![
        0x2001_4860_4860_0000_0000_0000_0000_8888u128,
        0x2606_4700_4700_0000_0000_0000_0000_1111u128,
        0x2400_3200_0000_0000_0000_0000_0000_0001u128,
        0x2402_4e00_0000_0000_0000_0000_0000_0000u128,
    ]
}

fn holds_v4(list: &Vec<u32>, x: u32) -> (r: bool)
    ensures
        r == list@.contains(x),
{
    let mut i: usize = 0;
    while i < list.len()
        invariant
            i <= list@.len(),
            forall|k: int| 0 <= k < i ==> list@[k] != x,
        decreases list@.len() - i,
    {
        if list[i] == x {
            assert(list@[i as int] == x);
            return true;
        }
        i = i + 1;
    }
    false
}

fn holds_v6(list: &Vec<u128>, x: u128) -> (r: bool)
    ensures
        r == list@.contains(x),
{
    let mut i: usize = 0;
    while i < list.len()
        invariant
            i <= list@.len(),
            forall|k: int| 0 <= k < i ==> list@[k] != x,
        decreases list@.len() - i,
    {
        if list[i] == x {
            assert(list@[i as int] == x);
            return true;
        }
        i = i + 1;
    }
    false
}

fn complete_v4(list: &mut Vec<u32>)
    ensures
        final(list)@ == completed(old(list)@, dns_v4()),
{
    let extra: [u32; 4] = [0x0808_0808, 0x0101_0101, 0xdf05_0505, 0x771d_1d1d];
    let ghost all = dns_v4();
    assert(extra@ =~= all);
    let ghost start = list@;
    let mut i: usize = 0;
    while i < 4
        invariant
            i <= 4,
            extra@ == all,
            all.len() == 4,
            list@ == completed(start, all.take(i as int)),
        decreases 4 - i,
    {
        assert(all.take(i + 1).drop_last() =~= all.take(i as int));
        assert(all.take(i + 1).last() == extra@[i as int]);
        if !holds_v4(list, extra[i]) {
            list.push(extra[i]);
        }
        i = i + 1;
    }
    assert(all.take(4) =~= all);
}

fn complete_v6(list: &mut Vec<u128>)
    ensures
        final(list)@ == completed(old(list)@, dns_v6()),
{
    let extra: [u128; 4] = [
        0x2001_4860_4860_0000_0000_0000_0000_8888,
        0x2606_4700_4700_0000_0000_0000_0000_1111,
        0x2400_3200_0000_0000_0000_0000_0000_0001,
        0x2402_4e00_0000_0000_0000_0000_0000_0000,
    ];
    let ghost all = dns_v6();
    assert(extra@ =~= all);
    let ghost start = list@;
    let mut i: usize = 0;
    while i < 4
        invariant
            i <= 4,
            extra@ == all,
            all.len() == 4,
            list@ == completed(start, all.take(i as int)),
        decreases 4 - i,
    {
        assert(all.take(i + 1).drop_last() =~= all.take(i as int));
        assert(all.take(i + 1).last() == extra@[i as int]);
        if !holds_v6(list, extra[i]) {
            list.push(extra[i]);
        }
        i = i + 1;
    }
    assert(all.take(4) =~= all);
}

/// The addresses that go past the tunnel: those of the node and of the name
/// servers.
pub open spec fn bypass_v4(ips: Seq<IpAddr>) -> Seq<u32> {
    completed(v4_only(ips), dns_v4())
}

/// The same for IPv6.
pub open spec fn bypass_v6(ips: Seq<IpAddr>) -> Seq<u128> {
    completed(v6_only(ips), dns_v6())
}

/// The addresses that go past the tunnel.
pub fn bypass_addresses(ips: &[IpAddr]) -> (r: (Vec<u32>, Vec<u128>))
    ensures
        r.0@ == bypass_v4(ips@),
        r.1@ == bypass_v6(ips@),
{
    let (mut v4, mut v6) = split_by_family(ips);
    complete_v4(&mut v4);
    complete_v6(&mut v6);
    (v4, v6)
}

fn difference_v4(a: &Vec<u32>, b: &Vec<u32>) -> (r: Vec<u32>)
    ensures
        r@ == without(a@, b@),
{
    let mut out: Vec<u32> = Vec::new();
    let mut i: usize = 0;
    while i < a.len()
        invariant
            i <= a@.len(),
            out@ == without(a@.take(i as int), b@),
        decreases a@.len() - i,
    {
        assert(a@.take(i + 1).drop_last() =~= a@.take(i as int));
        assert(a@.take(i + 1).last() == a@[i as int]);
        if !holds_v4(b, a[i]) {
            out.push(a[i]);
        }
        i = i + 1;
    }
    assert(a@.take(i as int) =~= a@);
    out
}

fn difference_v6(a: &Vec<u128>, b: &Vec<u128>) -> (r: Vec<u128>)
    ensures
        r@ == without(a@, b@),
{
    let mut out: Vec<u128> = Vec::new();
    let mut i: usize = 0;
    while i < a.len()
        invariant
            i <= a@.len(),
            out@ == without(a@.take(i as int), b@),
        decreases a@.len() - i,
    {
        assert(a@.take(i + 1).drop_last() =~= a@.take(i as int));
        assert(a@.take(i + 1).last() == a@[i as int]);
        if !holds_v6(b, a[i]) {
            out.push(a[i]);
        }
        i = i + 1;
    }
    assert(a@.take(i as int) =~= a@);
    out
}

/// What was in a list stays in it, and what was to be added is in it.
pub proof fn lemma_completed<A>(list: Seq<A>, extra: Seq<A>)
    ensures
        forall|x: A| #[trigger] completed(list, extra).contains(x) <==> list.contains(x) || extra.contains(x),
    decreases extra.len(),
{
    if extra.len() > 0 {
        let last = extra.last();
        let r = completed(list, extra.drop_last());
        lemma_completed(list, extra.drop_last());
        assert forall|x: A| #[trigger] completed(list, extra).contains(x) <==> list.contains(x)
            || extra.contains(x) by {
            if extra.contains(x) {
                let k = choose|k: int| 0 <= k < extra.len() && extra[k] == x;
                if k < extra.len() - 1 {
                    assert(extra.drop_last()[k] == x);
                    assert(extra.drop_last().contains(x));
                }
            }
            if extra.drop_last().contains(x) {
                let k = choose|k: int|
                    0 <= k < extra.drop_last().len() && extra.drop_last()[k] == x;
                assert(extra[k] == x);
            }
            if !r.contains(last) {
                let p = r.push(last);
                if p.contains(x) {
                    let k = choose|k: int| 0 <= k < p.len() && p[k] == x;
                    if k < r.len() {
                        assert(r[k] == x);
                    } else {
                        assert(extra[extra.len() - 1] == x);
                    }
                }
                if r.contains(x) {
                    let k = choose|k: int| 0 <= k < r.len() && r[k] == x;
                    assert(p[k] == x);
                }
                assert(p[r.len() as int] == last);
            } else {
                assert(extra[extra.len() - 1] == last);
            }
        }
    }
}

/// What is in one list and not in another.
pub proof fn lemma_without<A>(a: Seq<A>, b: Seq<A>)
    ensures
        forall|x: A| #[trigger] without(a, b).contains(x) <==> a.contains(x) && !b.contains(x),
    decreases a.len(),
{
    if a.len() > 0 {
        let last = a.last();
        let r = without(a.drop_last(), b);
        lemma_without(a.drop_last(), b);
        assert forall|x: A| #[trigger] without(a, b).contains(x) <==> a.contains(x) && !b.contains(
            x,
        ) by {
            if a.contains(x) {
                let k = choose|k: int| 0 <= k < a.len() && a[k] == x;
                if k < a.len() - 1 {
                    assert(a.drop_last()[k] == x);
                    assert(a.drop_last().contains(x));
                }
            }
            if a.drop_last().contains(x) {
                let k = choose|k: int| 0 <= k < a.drop_last().len() && a.drop_last()[k] == x;
                assert(a[k] == x);
            }
            assert(a[a.len() - 1] == last);
            if !b.contains(last) {
                let p = r.push(last);
                if p.contains(x) {
                    let k = choose|k: int| 0 <= k < p.len() && p[k] == x;
                    if k < r.len() {
                        assert(r[k] == x);
                    }
                }
                if r.contains(x) {
                    let k = choose|k: int| 0 <= k < r.len() && r[k] == x;
                    assert(p[k] == x);
                }
                assert(p[r.len() as int] == last);
            }
        }
    }
}

// ---------------------------------------------------------------------------
// What is remembered
// ---------------------------------------------------------------------------

/// The routes for IPv6 as they were and as they were set up.
#[derive(Debug)]
pub struct V6Routes {
    pub orig_gateway: u128,
    pub orig_iface: String,
    pub tun_gateway: u128,
    pub tun_name: String,
    pub bypass_ips: Vec<u128>,
}

/// The same as contracts speak of it.
#[verifier::ext_equal]
pub struct V6Model {
    pub orig_gateway: u128,
    pub orig_iface: Seq<char>,
    pub tun_gateway: u128,
    pub tun_name: Seq<char>,
    pub bypass_ips: Seq<u128>,
}

impl View for V6Routes {
    type V = V6Model;

    open spec fn view(&self) -> V6Model {
        V6Model {
            orig_gateway: self.orig_gateway,
            orig_iface: self.orig_iface@,
            tun_gateway: self.tun_gateway,
            tun_name: self.tun_name@,
            bypass_ips: self.bypass_ips@,
        }
    }
}

/// The routes as they were and as they were set up.
#[derive(Debug)]
pub struct Routes {
    pub orig_gateway: u32,
    pub orig_iface: String,
    pub bypass_ips: Vec<u32>,
    /// Nothing where the tunnel takes IPv4 only.
    pub v6: Option<V6Routes>,
}

/// The same as contracts speak of it.
#[verifier::ext_equal]
pub struct RoutesModel {
    pub orig_gateway: u32,
    pub orig_iface: Seq<char>,
    pub bypass_ips: Seq<u32>,
    pub v6: Option<V6Model>,
}

/// Optional routes for IPv6.
pub open spec fn opt_v6(v: Option<V6Routes>) -> Option<V6Model> {
    match v {
        Some(r) => Some(r@),
        None => None,
    }
}

impl View for Routes {
    type V = RoutesModel;

    open spec fn view(&self) -> RoutesModel {
        RoutesModel {
            orig_gateway: self.orig_gateway,
            orig_iface: self.orig_iface@,
            bypass_ips: self.bypass_ips@,
            v6: opt_v6(self.v6),
        }
    }
}

fn copy_v4(list: &Vec<u32>) -> (r: Vec<u32>)
    ensures
        r@ == list@,
{
    let mut out: Vec<u32> = Vec::new();
    let mut i: usize = 0;
    while i < list.len()
        invariant
            i <= list@.len(),
            out@ == list@.take(i as int),
        decreases list@.len() - i,
    {
        out.push(list[i]);
        assert(list@.take(i + 1) =~= list@.take(i as int).push(list@[i as int]));
        i = i + 1;
    }
    assert(list@.take(i as int) =~= list@);
    out
}

fn copy_v6(list: &Vec<u128>) -> (r: Vec<u128>)
    ensures
        r@ == list@,
{
    let mut out: Vec<u128> = Vec::new();
    let mut i: usize = 0;
    while i < list.len()
        invariant
            i <= list@.len(),
            out@ == list@.take(i as int),
        decreases list@.len() - i,
    {
        out.push(list[i]);
        assert(list@.take(i + 1) =~= list@.take(i as int).push(list@[i as int]));
        i = i + 1;
    }
    assert(list@.take(i as int) =~= list@);
    out
}

impl Routes {
    /// The same routes.
    pub fn duplicate(&self) -> (r: Routes)
        ensures
            r@ == self@,
    {
        Routes {
            orig_gateway: self.orig_gateway,
            orig_iface: self.orig_iface.clone(),
            bypass_ips: copy_v4(&self.bypass_ips),
            v6: match &self.v6 {
                Some(v6) => Some(
                    V6Routes {
                        orig_gateway: v6.orig_gateway,
                        orig_iface: v6.orig_iface.clone(),
                        tun_gateway: v6.tun_gateway,
                        tun_name: v6.tun_name.clone(),
                        bypass_ips: copy_v6(&v6.bypass_ips),
                    },
                ),
                None => None,
            },
        }
    }
}

// ---------------------------------------------------------------------------
// Steps for many addresses
// ---------------------------------------------------------------------------

/// Steps that lead addresses past the tunnel, while routes are set up.
pub open spec fn setup_steps(system: System, ips: Seq<u32>, gw: u32, iface: Seq<char>) -> Seq<
    StepModel,
> {
    ips.map_values(
        |ip: u32| StepModel::Run(commands::setup_bypass_route_line(system, ip, gw, iface)),
    )
}

fn push_setup(steps: &mut Vec<Step>, system: System, ips: &Vec<u32>, gw: u32, iface: &str)
    ensures
        plan::steps_of(final(steps)@) == plan::steps_of(old(steps)@) + setup_steps(
            system,
            ips@,
            gw,
            iface@,
        ),
{
    let ghost start = plan::steps_of(steps@);
    let ghost all = setup_steps(system, ips@, gw, iface@);
    assert(start + all.take(0) =~= start);
    let mut i: usize = 0;
    while i < ips.len()
        invariant
            i <= ips@.len(),
            all == setup_steps(system, ips@, gw, iface@),
            plan::steps_of(steps@) == start + all.take(i as int),
        decreases ips@.len() - i,
    {
        let step = Step::Run(commands::setup_bypass_route(system, ips[i], gw, iface));
        proof {
            plan::lemma_steps_push(steps@, step);
            assert(all[i as int] == step@);
            assert(start + all.take(i + 1) =~= (start + all.take(i as int)).push(step@));
        }
        steps.push(step);
        i = i + 1;
    }
    assert(all.take(i as int) =~= all);
}

/// Steps that lead addresses past the tunnel, while it runs.
pub open spec fn add_steps(system: System, ips: Seq<u32>, gw: u32) -> Seq<StepModel> {
    ips.map_values(|ip: u32| StepModel::Run(commands::add_bypass_route_line(system, ip, gw)))
}

fn push_add(steps: &mut Vec<Step>, system: System, ips: &Vec<u32>, gw: u32)
    ensures
        plan::steps_of(final(steps)@) == plan::steps_of(old(steps)@) + add_steps(system, ips@, gw),
{
    let ghost start = plan::steps_of(steps@);
    let ghost all = add_steps(system, ips@, gw);
    assert(start + all.take(0) =~= start);
    let mut i: usize = 0;
    while i < ips.len()
        invariant
            i <= ips@.len(),
            all == add_steps(system, ips@, gw),
            plan::steps_of(steps@) == start + all.take(i as int),
        decreases ips@.len() - i,
    {
        let step = Step::Run(commands::add_bypass_route(system, ips[i], gw));
        proof {
            plan::lemma_steps_push(steps@, step);
            assert(all[i as int] == step@);
            assert(start + all.take(i + 1) =~= (start + all.take(i as int)).push(step@));
        }
        steps.push(step);
        i = i + 1;
    }
    assert(all.take(i as int) =~= all);
}

/// Steps that lead addresses no longer past the tunnel, while it runs.
pub open spec fn remove_steps(system: System, ips: Seq<u32>, gw: u32) -> Seq<StepModel> {
    ips.map_values(|ip: u32| StepModel::Run(commands::remove_bypass_route_line(system, ip, gw)))
}

fn push_remove(steps: &mut Vec<Step>, system: System, ips: &Vec<u32>, gw: u32)
    ensures
        plan::steps_of(final(steps)@) == plan::steps_of(old(steps)@) + remove_steps(
            system,
            ips@,
            gw,
        ),
{
    let ghost start = plan::steps_of(steps@);
    let ghost all = remove_steps(system, ips@, gw);
    assert(start + all.take(0) =~= start);
    let mut i: usize = 0;
    while i < ips.len()
        invariant
            i <= ips@.len(),
            all == remove_steps(system, ips@, gw),
            plan::steps_of(steps@) == start + all.take(i as int),
        decreases ips@.len() - i,
    {
        let step = Step::Run(commands::remove_bypass_route(system, ips[i], gw));
        proof {
            plan::lemma_steps_push(steps@, step);
            assert(all[i as int] == step@);
            assert(start + all.take(i + 1) =~= (start + all.take(i as int)).push(step@));
        }
        steps.push(step);
        i = i + 1;
    }
    assert(all.take(i as int) =~= all);
}

/// Steps that lead addresses no longer past the tunnel, when all ends.
pub open spec fn restore_steps(system: System, ips: Seq<u32>) -> Seq<StepModel> {
    ips.map_values(|ip: u32| StepModel::Run(commands::restore_bypass_route_line(system, ip)))
}

fn push_restore(steps: &mut Vec<Step>, system: System, ips: &Vec<u32>)
    ensures
        plan::steps_of(final(steps)@) == plan::steps_of(old(steps)@) + restore_steps(system, ips@),
{
    let ghost start = plan::steps_of(steps@);
    let ghost all = restore_steps(system, ips@);
    assert(start + all.take(0) =~= start);
    let mut i: usize = 0;
    while i < ips.len()
        invariant
            i <= ips@.len(),
            all == restore_steps(system, ips@),
            plan::steps_of(steps@) == start + all.take(i as int),
        decreases ips@.len() - i,
    {
        let step = Step::Run(commands::restore_bypass_route(system, ips[i]));
        proof {
            plan::lemma_steps_push(steps@, step);
            assert(all[i as int] == step@);
            assert(start + all.take(i + 1) =~= (start + all.take(i as int)).push(step@));
        }
        steps.push(step);
        i = i + 1;
    }
    assert(all.take(i as int) =~= all);
}

/// Steps that lead IPv6 addresses past the tunnel.
pub open spec fn add_steps_v6(system: System, ips: Seq<u128>, gw: u128, iface: Seq<char>) -> Seq<
    StepModel,
> {
    ips.map_values(
        |ip: u128| StepModel::Run(commands::add_bypass_route_v6_line(system, ip, gw, iface)),
    )
}

fn push_add_v6(steps: &mut Vec<Step>, system: System, ips: &Vec<u128>, gw: u128, iface: &str)
    ensures
        plan::steps_of(final(steps)@) == plan::steps_of(old(steps)@) + add_steps_v6(
            system,
            ips@,
            gw,
            iface@,
        ),
{
    let ghost start = plan::steps_of(steps@);
    let ghost all = add_steps_v6(system, ips@, gw, iface@);
    assert(start + all.take(0) =~= start);
    let mut i: usize = 0;
    while i < ips.len()
        invariant
            i <= ips@.len(),
            all == add_steps_v6(system, ips@, gw, iface@),
            plan::steps_of(steps@) == start + all.take(i as int),
        decreases ips@.len() - i,
    {
        let step = Step::Run(commands::add_bypass_route_v6(system, ips[i], gw, iface));
        proof {
            plan::lemma_steps_push(steps@, step);
            assert(all[i as int] == step@);
            assert(start + all.take(i + 1) =~= (start + all.take(i as int)).push(step@));
        }
        steps.push(step);
        i = i + 1;
    }
    assert(all.take(i as int) =~= all);
}

/// Steps that lead IPv6 addresses no longer past the tunnel.
pub open spec fn remove_steps_v6(system: System, ips: Seq<u128>, iface: Seq<char>) -> Seq<StepModel> {
    ips.map_values(
        |ip: u128| StepModel::Run(commands::remove_bypass_route_v6_line(system, ip, iface)),
    )
}

fn push_remove_v6(steps: &mut Vec<Step>, system: System, ips: &Vec<u128>, iface: &str)
    ensures
        plan::steps_of(final(steps)@) == plan::steps_of(old(steps)@) + remove_steps_v6(
            system,
            ips@,
            iface@,
        ),
{
    let ghost start = plan::steps_of(steps@);
    let ghost all = remove_steps_v6(system, ips@, iface@);
    assert(start + all.take(0) =~= start);
    let mut i: usize = 0;
    while i < ips.len()
        invariant
            i <= ips@.len(),
            all == remove_steps_v6(system, ips@, iface@),
            plan::steps_of(steps@) == start + all.take(i as int),
        decreases ips@.len() - i,
    {
        let step = Step::Run(commands::remove_bypass_route_v6(system, ips[i], iface));
        proof {
            plan::lemma_steps_push(steps@, step);
            assert(all[i as int] == step@);
            assert(start + all.take(i + 1) =~= (start + all.take(i as int)).push(step@));
        }
        steps.push(step);
        i = i + 1;
    }
    assert(all.take(i as int) =~= all);
}

fn push_step(steps: &mut Vec<Step>, step: Step)
    ensures
        plan::steps_of(final(steps)@) == plan::steps_of(old(steps)@).push(step@),
{
    proof {
        plan::lemma_steps_push(steps@, step);
    }
    steps.push(step);
}

// ---------------------------------------------------------------------------
// Setting up
// ---------------------------------------------------------------------------

/// The text for a default route that could not be set.
pub open spec fn route_failure_text(tun_name: Option<Seq<char>>, v6: bool, hint: Seq<char>) -> Seq<
    char,
> {
    (if v6 {
        "Failed to set IPv6 default route through TUN"@
    } else {
        "Failed to set default route through TUN"@
    }) + (match tun_name {
        Some(n) => " device "@ + n,
        None => seq![],
    }) + ". "@ + hint
}

fn route_failure(tun_name: Option<&str>, v6: bool, hint: &str) -> (r: String)
    ensures
        r@ == route_failure_text(text::opt_chars(tun_name), v6, hint@),
{
    let mut out: Vec<char> = Vec::new();
    if v6 {
        text::append_str(&mut out, "Failed to set IPv6 default route through TUN");
    } else {
        text::append_str(&mut out, "Failed to set default route through TUN");
    }
    if let Some(n) = tun_name {
        text::append_str(&mut out, " device ");
        text::append_str(&mut out, n);
    }
    text::append_str(&mut out, ". ");
    text::append_str(&mut out, hint);
    assert(out@ =~= route_failure_text(text::opt_chars(tun_name), v6, hint@));
    text::string_of(out.as_slice())
}

/// The plan that leads all IPv4 traffic into the tunnel. On Linux and Windows
/// the usual default route stays, behind the new one.
pub open spec fn setup_plan(
    system: System,
    tun_name: Seq<char>,
    tun_gateway: u32,
    bypass: Seq<u32>,
    gw: u32,
    iface: Seq<char>,
    hint: Seq<char>,
) -> Seq<StepModel> {
    match system {
        System::Linux => seq![
            StepModel::Write {
                path: "/proc/sys/net/ipv4/ip_forward"@,
                content: "1"@,
                failure: Some("enable net.ipv4.ip_forward"@),
            },
        ] + setup_steps(system, bypass, gw, iface) + seq![
            StepModel::AwaitDevice(tun_name),
            StepModel::Run(commands::linux_default_del_dev_line(tun_gateway, tun_name)),
            StepModel::Must {
                command: commands::linux_default_add_tun_line(tun_gateway, tun_name),
                failure: route_failure_text(Some(tun_name), false, hint),
            },
        ],
        System::Macos => setup_steps(system, bypass, gw, iface) + seq![
            StepModel::Replace {
                change: commands::macos_default_change_line(tun_gateway),
                delete: commands::macos_default_delete_line(),
                add: commands::macos_default_add_line(tun_gateway),
                failure: Some(route_failure_text(None, false, hint)),
            },
        ],
        System::Windows => setup_steps(system, bypass, gw, iface) + seq![
            StepModel::Run(commands::windows_default_delete_line(tun_gateway)),
            StepModel::Must {
                command: commands::windows_default_add_tun_line(tun_gateway),
                failure: route_failure_text(None, false, hint),
            },
        ],
    }
}

/// The plan that leads all IPv4 traffic into the tunnel.
pub fn setup_routes(
    system: System,
    tun_name: &str,
    tun_gateway: u32,
    bypass: &Vec<u32>,
    gw: u32,
    iface: &str,
    hint: &str,
) -> (r: Vec<Step>)
    ensures
        plan::steps_of(r@) == setup_plan(
            system,
            tun_name@,
            tun_gateway,
            bypass@,
            gw,
            iface@,
            hint@,
        ),
{
    let mut steps: Vec<Step> = Vec::new();
    assert(plan::steps_of(steps@) =~= Seq::<StepModel>::empty());
    match system {
        System::Linux => {
            push_step(
                &mut steps,
                Step::Write {
                    path: text::string_of(
                        text::chars_of("/proc/sys/net/ipv4/ip_forward").as_slice(),
                    ),
                    content: text::string_of(text::chars_of("1").as_slice()),
                    failure: Some(
                        text::string_of(text::chars_of("enable net.ipv4.ip_forward").as_slice()),
                    ),
                },
            );
            push_setup(&mut steps, system, bypass, gw, iface);
            push_step(
                &mut steps,
                Step::AwaitDevice(text::string_of(text::chars_of(tun_name).as_slice())),
            );
            push_step(
                &mut steps,
                Step::Run(commands::linux_default_del_dev(tun_gateway, tun_name)),
            );
            push_step(
                &mut steps,
                Step::Must {
                    command: commands::linux_default_add_tun(tun_gateway, tun_name),
                    failure: route_failure(Some(tun_name), false, hint),
                },
            );
        },
        System::Macos => {
            push_setup(&mut steps, system, bypass, gw, iface);
            push_step(
                &mut steps,
                Step::Replace {
                    change: commands::macos_default_change(tun_gateway),
                    delete: commands::macos_default_delete(),
                    add: commands::macos_default_add(tun_gateway),
                    failure: Some(route_failure(None, false, hint)),
                },
            );
        },
        System::Windows => {
            push_setup(&mut steps, system, bypass, gw, iface);
            push_step(&mut steps, Step::Run(commands::windows_default_delete(tun_gateway)));
            push_step(
                &mut steps,
                Step::Must {
                    command: commands::windows_default_add_tun(tun_gateway),
                    failure: route_failure(None, false, hint),
                },
            );
        },
    }
    assert(plan::steps_of(steps@) =~= setup_plan(
        system,
        tun_name@,
        tun_gateway,
        bypass@,
        gw,
        iface@,
        hint@,
    ));
    steps
}

/// The plan that leads all IPv6 traffic into the tunnel.
pub open spec fn setup_plan_v6(
    system: System,
    tun_name: Seq<char>,
    tun_gateway: u128,
    bypass: Seq<u128>,
    gw: u128,
    iface: Seq<char>,
    hint: Seq<char>,
) -> Seq<StepModel> {
    match system {
        System::Linux => seq![
            StepModel::Write {
                path: "/proc/sys/net/ipv6/conf/all/forwarding"@,
                content: "1"@,
                failure: None,
            },
        ] + add_steps_v6(system, bypass, gw, iface) + seq![
            StepModel::Must {
                command: commands::command_of(
                    "ip"@,
                    commands::linux_v6_default_add_line(tun_gateway, tun_name),
                ),
                failure: route_failure_text(Some(tun_name), true, hint),
            },
        ],
        System::Macos => add_steps_v6(system, bypass, gw, iface) + seq![
            StepModel::Replace {
                change: commands::command_of(
                    "route"@,
                    commands::macos_v6_change_default_line(crate::net::v6_text(tun_gateway)),
                ),
                delete: commands::command_of("route"@, commands::macos_v6_delete_default_line()),
                add: commands::command_of(
                    "route"@,
                    commands::macos_v6_add_default_line(crate::net::v6_text(tun_gateway)),
                ),
                failure: Some(route_failure_text(None, true, hint)),
            },
        ],
        System::Windows => add_steps_v6(system, bypass, gw, iface) + seq![
            StepModel::Run(
                commands::command_of(
                    "netsh"@,
                    commands::windows_v6_set_iface_metric_line(tun_name),
                ),
            ),
            StepModel::Must {
                command: commands::command_of(
                    "netsh"@,
                    commands::windows_v6_add_default_line(tun_name, tun_gateway, Some(3)),
                ),
                failure: route_failure_text(None, true, hint),
            },
        ],
    }
}

/// The plan that leads all IPv6 traffic into the tunnel.
pub fn setup_routes_v6(
    system: System,
    tun_name: &str,
    tun_gateway: u128,
    bypass: &Vec<u128>,
    gw: u128,
    iface: &str,
    hint: &str,
) -> (r: Vec<Step>)
    ensures
        plan::steps_of(r@) == setup_plan_v6(
            system,
            tun_name@,
            tun_gateway,
            bypass@,
            gw,
            iface@,
            hint@,
        ),
{
    let mut steps: Vec<Step> = Vec::new();
    assert(plan::steps_of(steps@) =~= Seq::<StepModel>::empty());
    match system {
        System::Linux => {
            push_step(
                &mut steps,
                Step::Write {
                    path: text::string_of(
                        text::chars_of("/proc/sys/net/ipv6/conf/all/forwarding").as_slice(),
                    ),
                    content: text::string_of(text::chars_of("1").as_slice()),
                    failure: None,
                },
            );
            push_add_v6(&mut steps, system, bypass, gw, iface);
            push_step(
                &mut steps,
                Step::Must {
                    command: commands::linux_v6_default_add(tun_gateway, tun_name),
                    failure: route_failure(Some(tun_name), true, hint),
                },
            );
        },
        System::Macos => {
            push_add_v6(&mut steps, system, bypass, gw, iface);
            let tun = commands::v6_string(tun_gateway);
            push_step(
                &mut steps,
                Step::Replace {
                    change: commands::macos_v6_change_default(tun.as_str()),
                    delete: commands::macos_v6_delete_default(),
                    add: commands::macos_v6_add_default(tun.as_str()),
                    failure: Some(route_failure(None, true, hint)),
                },
            );
        },
        System::Windows => {
            push_add_v6(&mut steps, system, bypass, gw, iface);
            push_step(&mut steps, Step::Run(commands::windows_v6_set_iface_metric(tun_name)));
            push_step(
                &mut steps,
                Step::Must {
                    command: commands::windows_v6_add_default(tun_name, tun_gateway, Some(3)),
                    failure: route_failure(None, true, hint),
                },
            );
        },
    }
    assert(plan::steps_of(steps@) =~= setup_plan_v6(
        system,
        tun_name@,
        tun_gateway,
        bypass@,
        gw,
        iface@,
        hint@,
    ));
    steps
}

// ---------------------------------------------------------------------------
// Taking back
// ---------------------------------------------------------------------------

/// The plan that takes the IPv6 routes back.
pub open spec fn restore_plan_v6(system: System, v6: V6Model) -> Seq<StepModel> {
    match system {
        System::Linux => seq![
            StepModel::Run(
                commands::command_of(
                    "ip"@,
                    commands::linux_v6_default_del_line(v6.tun_gateway, v6.tun_name),
                ),
            ),
        ] + remove_steps_v6(system, v6.bypass_ips, v6.orig_iface),
        System::Macos => {
            let gw = commands::scoped_gateway_text(v6.orig_gateway, v6.orig_iface);
            seq![
                StepModel::Replace {
                    change: commands::command_of(
                        "route"@,
                        commands::macos_v6_change_default_line(gw),
                    ),
                    delete: commands::command_of(
                        "route"@,
                        commands::macos_v6_delete_default_line(),
                    ),
                    add: commands::command_of("route"@, commands::macos_v6_add_default_line(gw)),
                    failure: None,
                },
            ] + remove_steps_v6(system, v6.bypass_ips, v6.orig_iface)
        },
        System::Windows => seq![
            StepModel::Run(
                commands::command_of("netsh"@, commands::windows_v6_del_default_line(v6.tun_name)),
            ),
            StepModel::Run(
                commands::command_of(
                    "netsh"@,
                    commands::windows_v6_add_default_line(v6.orig_iface, v6.orig_gateway, None),
                ),
            ),
        ] + remove_steps_v6(system, v6.bypass_ips, v6.orig_iface),
    }
}

fn push_restore_v6(steps: &mut Vec<Step>, system: System, v6: &V6Routes)
    ensures
        plan::steps_of(final(steps)@) == plan::steps_of(old(steps)@) + restore_plan_v6(system, v6@),
{
    let ghost start = plan::steps_of(steps@);
    match system {
        System::Linux => {
            push_step(
                steps,
                Step::Run(commands::linux_v6_default_del(v6.tun_gateway, v6.tun_name.as_str())),
            );
        },
        System::Macos => {
            let gw = commands::scoped_v6_gateway(v6.orig_gateway, v6.orig_iface.as_str());
            push_step(
                steps,
                Step::Replace {
                    change: commands::macos_v6_change_default(gw.as_str()),
                    delete: commands::macos_v6_delete_default(),
                    add: commands::macos_v6_add_default(gw.as_str()),
                    failure: None,
                },
            );
        },
        System::Windows => {
            push_step(steps, Step::Run(commands::windows_v6_del_default(v6.tun_name.as_str())));
            push_step(
                steps,
                Step::Run(
                    commands::windows_v6_add_default(v6.orig_iface.as_str(), v6.orig_gateway, None),
                ),
            );
        },
    }
    push_remove_v6(steps, system, &v6.bypass_ips, v6.orig_iface.as_str());
    assert(plan::steps_of(steps@) =~= start + restore_plan_v6(system, v6@));
}

/// The plan that takes the routes back, IPv4 before IPv6.
pub open spec fn restore_plan(system: System, m: RoutesModel) -> Seq<StepModel> {
    (match system {
        System::Linux => seq![StepModel::Run(commands::linux_default_del_line(TUN_GATEWAY))],
        System::Macos => seq![
            StepModel::Replace {
                change: commands::macos_default_change_line(m.orig_gateway),
                delete: commands::macos_default_delete_line(),
                add: commands::macos_default_add_line(m.orig_gateway),
                failure: None,
            },
        ],
        System::Windows => seq![StepModel::Run(commands::windows_default_delete_line(TUN_GATEWAY))],
    }) + restore_steps(system, m.bypass_ips) + (match m.v6 {
        Some(v6) => restore_plan_v6(system, v6),
        None => seq![],
    })
}

/// The plan that takes the routes back when the program ends without
/// warning: in addition the usual default route is put back where it may be
/// missing. `current_gateway` is the default gateway without that of the
/// tunnel.
pub open spec fn emergency_plan(system: System, m: RoutesModel, current_gateway: Option<u32>) -> Seq<
    StepModel,
> {
    (match system {
        System::Linux => seq![
            StepModel::Run(commands::linux_default_del_line(TUN_GATEWAY)),
            StepModel::Run(commands::linux_default_add_line(m.orig_gateway, m.orig_iface)),
        ],
        System::Macos => seq![
            StepModel::Replace {
                change: commands::macos_default_change_line(m.orig_gateway),
                delete: commands::macos_default_delete_line(),
                add: commands::macos_default_add_line(m.orig_gateway),
                failure: None,
            },
        ],
        System::Windows => if current_gateway == Some(m.orig_gateway) {
            seq![StepModel::Run(commands::windows_default_delete_line(TUN_GATEWAY))]
        } else {
            seq![
                StepModel::Run(commands::windows_default_delete_line(TUN_GATEWAY)),
                StepModel::Run(commands::windows_default_add_line(m.orig_gateway)),
            ]
        },
    }) + restore_steps(system, m.bypass_ips) + (match m.v6 {
        Some(v6) => restore_plan_v6(system, v6),
        None => seq![],
    })
}

fn push_macos_default(steps: &mut Vec<Step>, gw: u32)
    ensures
        plan::steps_of(final(steps)@) == plan::steps_of(old(steps)@).push(
            StepModel::Replace {
                change: commands::macos_default_change_line(gw),
                delete: commands::macos_default_delete_line(),
                add: commands::macos_default_add_line(gw),
                failure: None,
            },
        ),
{
    push_step(
        steps,
        Step::Replace {
            change: commands::macos_default_change(gw),
            delete: commands::macos_default_delete(),
            add: commands::macos_default_add(gw),
            failure: None,
        },
    );
}

/// The plan that takes the routes back.
pub fn restore_routes(system: System, routes: &Routes) -> (r: Vec<Step>)
    ensures
        plan::steps_of(r@) == restore_plan(system, routes@),
{
    let mut steps: Vec<Step> = Vec::new();
    assert(plan::steps_of(steps@) =~= Seq::<StepModel>::empty());
    match system {
        System::Linux => push_step(&mut steps, Step::Run(commands::linux_default_del(TUN_GATEWAY))),
        System::Macos => push_macos_default(&mut steps, routes.orig_gateway),
        System::Windows => push_step(
            &mut steps,
            Step::Run(commands::windows_default_delete(TUN_GATEWAY)),
        ),
    }
    push_restore(&mut steps, system, &routes.bypass_ips);
    if let Some(v6) = &routes.v6 {
        push_restore_v6(&mut steps, system, v6);
    }
    assert(plan::steps_of(steps@) =~= restore_plan(system, routes@));
    steps
}

/// The plan that takes the routes back when the program ends without warning.
pub fn emergency_routes(system: System, routes: &Routes, current_gateway: Option<u32>) -> (r: Vec<
    Step,
>)
    ensures
        plan::steps_of(r@) == emergency_plan(system, routes@, current_gateway),
{
    let mut steps: Vec<Step> = Vec::new();
    assert(plan::steps_of(steps@) =~= Seq::<StepModel>::empty());
    match system {
        System::Linux => {
            push_step(&mut steps, Step::Run(commands::linux_default_del(TUN_GATEWAY)));
            push_step(
                &mut steps,
                Step::Run(
                    commands::linux_default_add(routes.orig_gateway, routes.orig_iface.as_str()),
                ),
            );
        },
        System::Macos => push_macos_default(&mut steps, routes.orig_gateway),
        System::Windows => {
            push_step(&mut steps, Step::Run(commands::windows_default_delete(TUN_GATEWAY)));
            let there: bool = match current_gateway {
                Some(gw) => gw == routes.orig_gateway,
                None => false,
            };
            if !there {
                push_step(
                    &mut steps,
                    Step::Run(commands::windows_default_add(routes.orig_gateway)),
                );
            }
        },
    }
    push_restore(&mut steps, system, &routes.bypass_ips);
    if let Some(v6) = &routes.v6 {
        push_restore_v6(&mut steps, system, v6);
    }
    assert(plan::steps_of(steps@) =~= emergency_plan(system, routes@, current_gateway));
    steps
}

/// The plan that takes back what a failed setup for IPv6 may have left.
pub fn rollback_routes_v6(system: System, bypass: &Vec<u128>, iface: &str) -> (r: Vec<Step>)
    ensures
        plan::steps_of(r@) == remove_steps_v6(system, bypass@, iface@),
{
    let mut steps: Vec<Step> = Vec::new();
    push_remove_v6(&mut steps, system, bypass, iface);
    assert(plan::steps_of(steps@) =~= remove_steps_v6(system, bypass@, iface@));
    steps
}

/// Taking routes back never stops halfway, whatever its commands do.
pub proof fn law_restoring_never_stops(
    system: System,
    m: RoutesModel,
    current_gateway: Option<u32>,
)
    ensures
        plan::all_lenient(restore_plan(system, m)),
        plan::all_lenient(emergency_plan(system, m, current_gateway)),
{
}

/// Every address that was led past the tunnel is led back, when all ends and
/// when the program ends without warning.
pub proof fn law_every_exemption_is_taken_back(
    system: System,
    m: RoutesModel,
    current_gateway: Option<u32>,
    ip: u32,
)
    requires
        m.bypass_ips.contains(ip),
    ensures
        restore_plan(system, m).contains(
            StepModel::Run(commands::restore_bypass_route_line(system, ip)),
        ),
        emergency_plan(system, m, current_gateway).contains(
            StepModel::Run(commands::restore_bypass_route_line(system, ip)),
        ),
{
    let steps = restore_steps(system, m.bypass_ips);
    let k = choose|k: int| 0 <= k < m.bypass_ips.len() && m.bypass_ips[k] == ip;
    assert(steps[k] == StepModel::Run(commands::restore_bypass_route_line(system, ip)));
    assert(restore_plan(system, m)[k + 1] == steps[k]);
    let head = match system {
        System::Linux => 2int,
        System::Macos => 1int,
        System::Windows => if current_gateway == Some(m.orig_gateway) {
            1int
        } else {
            2int
        },
    };
    assert(emergency_plan(system, m, current_gateway)[k + head] == steps[k]);
}

/// The same holds of every IPv6 address.
pub proof fn law_every_v6_exemption_is_taken_back(
    system: System,
    m: RoutesModel,
    current_gateway: Option<u32>,
    ip: u128,
)
    requires
        m.v6 is Some,
        m.v6->0.bypass_ips.contains(ip),
    ensures
        restore_plan(system, m).contains(
            StepModel::Run(
                commands::remove_bypass_route_v6_line(system, ip, m.v6->0.orig_iface),
            ),
        ),
        emergency_plan(system, m, current_gateway).contains(
            StepModel::Run(
                commands::remove_bypass_route_v6_line(system, ip, m.v6->0.orig_iface),
            ),
        ),
{
    let v6 = m.v6->0;
    let step = StepModel::Run(commands::remove_bypass_route_v6_line(system, ip, v6.orig_iface));
    let steps = remove_steps_v6(system, v6.bypass_ips, v6.orig_iface);
    let k = choose|k: int| 0 <= k < v6.bypass_ips.len() && v6.bypass_ips[k] == ip;
    assert(steps[k] == step);
    let part = restore_plan_v6(system, v6);
    assert(part[part.len() - steps.len() + k] == step);
    let whole = restore_plan(system, m);
    assert(whole[whole.len() - steps.len() + k] == step);
    let urgent = emergency_plan(system, m, current_gateway);
    assert(urgent[urgent.len() - steps.len() + k] == step);
}

// ---------------------------------------------------------------------------
// Keeping in step
// ---------------------------------------------------------------------------

/// The plan that brings the exemptions in step with another node: what is no
/// longer needed goes, then what is missing comes.
pub open spec fn update_plan(
    system: System,
    m: RoutesModel,
    new_v4: Seq<u32>,
    new_v6: Seq<u128>,
) -> Seq<StepModel> {
    remove_steps(system, without(m.bypass_ips, new_v4), m.orig_gateway) + add_steps(
        system,
        without(new_v4, m.bypass_ips),
        m.orig_gateway,
    ) + (match m.v6 {
        Some(v6) => remove_steps_v6(system, without(v6.bypass_ips, new_v6), v6.orig_iface)
            + add_steps_v6(
            system,
            without(new_v6, v6.bypass_ips),
            v6.orig_gateway,
            v6.orig_iface,
        ),
        None => seq![],
    })
}

/// The routes after they were brought in step.
pub open spec fn updated(m: RoutesModel, new_v4: Seq<u32>, new_v6: Seq<u128>) -> RoutesModel {
    RoutesModel {
        bypass_ips: new_v4,
        v6: match m.v6 {
            Some(v6) => Some(V6Model { bypass_ips: new_v6, ..v6 }),
            None => None,
        },
        ..m
    }
}

/// What the tunnel has changed, and the interface for the program's own
/// sockets.
pub struct TunState {
    routes: Option<Routes>,
    bind: BindState,
}

/// The same as contracts speak of it.
#[verifier::ext_equal]
pub struct TunModel {
    pub routes: Option<RoutesModel>,
    pub bind: Option<BindModel>,
}

impl View for TunState {
    type V = TunModel;

    closed spec fn view(&self) -> TunModel {
        TunModel {
            routes: match self.routes {
                Some(r) => Some(r@),
                None => None,
            },
            bind: self.bind@,
        }
    }
}

impl TunState {
    /// Nothing is changed.
    pub fn new() -> (r: Self)
        ensures
            r@ == (TunModel { routes: None, bind: None }),
    {
        TunState { routes: None, bind: BindState::new() }
    }

    /// Routes were set up and not taken back.
    pub fn is_set_up(&self) -> (r: bool)
        ensures
            r == self@.routes is Some,
    {
        self.routes.is_some()
    }

    /// The interface for the program's own sockets.
    pub fn outbound_bind(&self) -> (r: &BindState)
        ensures
            r@ == self@.bind,
    {
        &self.bind
    }

    /// The routes that were set up are remembered.
    pub fn save(&mut self, routes: Routes)
        ensures
            final(self)@ == (TunModel { routes: Some(routes@), ..old(self)@ }),
    {
        self.routes = Some(routes);
    }

    fn clear(&mut self)
        ensures
            final(self)@ == (TunModel { routes: None, bind: None }),
    {
        self.routes = None;
        outbound_bind::clear_outbound_bind(&mut self.bind);
    }

    /// The program's own sockets are bound to the physical interface. How the
    /// interface is found differs: `index` is its index, by its address on
    /// Windows and by its name on macOS. Where it is not known, nothing
    /// changes.
    pub fn install_outbound_bind(&mut self, platform: Platform, orig_iface: &str, index: Option<u32>)
        ensures
            final(self)@ == (TunModel {
                bind: match platform {
                    Platform::Windows => match index {
                        Some(i) => Some(
                            BindModel { if_index_v4: Some(i), if_index_v6: None, if_name: None },
                        ),
                        None => old(self)@.bind,
                    },
                    Platform::Linux => Some(
                        BindModel {
                            if_index_v4: None,
                            if_index_v6: None,
                            if_name: Some(orig_iface@),
                        },
                    ),
                    Platform::Macos => match index {
                        Some(i) => Some(
                            BindModel { if_index_v4: Some(i), if_index_v6: Some(i), if_name: None },
                        ),
                        None => old(self)@.bind,
                    },
                    Platform::Other => old(self)@.bind,
                },
                ..old(self)@
            }),
    {
        let bind = match platform {
            Platform::Windows => match index {
                Some(i) => OutboundBind { if_index_v4: Some(i), if_index_v6: None, if_name: None },
                None => {
                    return;
                },
            },
            Platform::Linux => OutboundBind {
                if_index_v4: None,
                if_index_v6: None,
                if_name: Some(text::string_of(text::chars_of(orig_iface).as_slice())),
            },
            Platform::Macos => match index {
                Some(i) => OutboundBind {
                    if_index_v4: Some(i),
                    if_index_v6: Some(i),
                    if_name: None,
                },
                None => {
                    return;
                },
            },
            Platform::Other => {
                return;
            },
        };
        outbound_bind::set_outbound_bind(&mut self.bind, bind);
    }

    /// The plan that takes everything back when the program ends without
    /// warning; after it nothing is left to take back. `current_gateway` is
    /// the default gateway as it is.
    pub fn emergency_restore_routes(&mut self, platform: Platform, current_gateway: Option<u32>) -> (r:
        Vec<Step>)
        ensures
            match old(self)@.routes {
                None => plan::steps_of(r@) == Seq::<StepModel>::empty() && final(self)@ == old(self)@,
                Some(m) => {
                    &&& final(self)@ == (TunModel { routes: None, bind: None })
                    &&& plan::steps_of(r@) == (match platform.known() {
                        Some(system) => emergency_plan(system, m, current_gateway),
                        None => seq![],
                    })
                },
            },
    {
        let steps: Vec<Step> = match &self.routes {
            None => {
                let none: Vec<Step> = Vec::new();
                assert(plan::steps_of(none@) =~= Seq::<StepModel>::empty());
                return none;
            },
            Some(routes) => match platform.system() {
                Some(system) => emergency_routes(system, routes, current_gateway),
                None => Vec::new(),
            },
        };
        assert(platform.known() is None ==> plan::steps_of(steps@) =~= Seq::<StepModel>::empty());
        self.clear();
        steps
    }

    /// The plan that brings the exemptions in step with another node.
    pub fn update_tun_bypass_ips(&mut self, platform: Platform, proxy_server_ips: &[IpAddr]) -> (r:
        Result<Vec<Step>, &'static str>)
        ensures
            match old(self)@.routes {
                None => {
                    &&& r matches Err(e)
                    &&& e@ == "TUN is not running \u{2014} no bypass routes to update"@
                    &&& final(self)@ == old(self)@
                },
                Some(m) => {
                    let v4 = bypass_v4(proxy_server_ips@);
                    let v6 = bypass_v6(proxy_server_ips@);
                    &&& r matches Ok(steps)
                    &&& plan::steps_of(steps@) == (match platform.known() {
                        Some(system) => update_plan(system, m, v4, v6),
                        None => seq![],
                    })
                    &&& final(self)@ == (TunModel {
                        routes: Some(updated(m, v4, v6)),
                        ..old(self)@
                    })
                },
            },
    {
        let old_routes: &Routes = match &self.routes {
            Some(r) => r,
            None => {
                return Err("TUN is not running \u{2014} no bypass routes to update");
            },
        };
        let (new_v4, new_v6) = bypass_addresses(proxy_server_ips);
        let mut steps: Vec<Step> = Vec::new();
        assert(plan::steps_of(steps@) =~= Seq::<StepModel>::empty());
        if let Some(system) = platform.system() {
            let gone = difference_v4(&old_routes.bypass_ips, &new_v4);
            push_remove(&mut steps, system, &gone, old_routes.orig_gateway);
            let come = difference_v4(&new_v4, &old_routes.bypass_ips);
            push_add(&mut steps, system, &come, old_routes.orig_gateway);
            if let Some(v6) = &old_routes.v6 {
                let gone6 = difference_v6(&v6.bypass_ips, &new_v6);
                push_remove_v6(&mut steps, system, &gone6, v6.orig_iface.as_str());
                let come6 = difference_v6(&new_v6, &v6.bypass_ips);
                push_add_v6(&mut steps, system, &come6, v6.orig_gateway, v6.orig_iface.as_str());
            }
            assert(plan::steps_of(steps@) =~= update_plan(
                system,
                old_routes@,
                new_v4@,
                new_v6@,
            ));
        }
        let next = Routes {
            orig_gateway: old_routes.orig_gateway,
            orig_iface: old_routes.orig_iface.clone(),
            bypass_ips: new_v4,
            v6: match &old_routes.v6 {
                Some(v6) => Some(
                    V6Routes {
                        orig_gateway: v6.orig_gateway,
                        orig_iface: v6.orig_iface.clone(),
                        tun_gateway: v6.tun_gateway,
                        tun_name: v6.tun_name.clone(),
                        bypass_ips: new_v6,
                    },
                ),
                None => None,
            },
        };
        assert(next@ =~= updated(old_routes@, bypass_v4(proxy_server_ips@), bypass_v6(proxy_server_ips@)));
        self.routes = Some(next);
        Ok(steps)
    }
}

/// Once the exemptions are in step, exactly the wanted addresses go past the
/// tunnel: those that did and are not removed, and those that are added.
pub proof fn law_exemptions_are_in_step<A>(old_ips: Seq<A>, new_ips: Seq<A>, x: A)
    ensures
        new_ips.contains(x) <==> (old_ips.contains(x) && !without(old_ips, new_ips).contains(x))
            || without(new_ips, old_ips).contains(x),
{
    lemma_without(old_ips, new_ips);
    lemma_without(new_ips, old_ips);
}

/// The addresses of the node and those of the name servers go past the
/// tunnel, and no others.
pub proof fn law_node_and_names_go_past(ips: Seq<IpAddr>, x: u32)
    ensures
        bypass_v4(ips).contains(x) <==> v4_only(ips).contains(x) || dns_v4().contains(x),
{
    lemma_completed(v4_only(ips), dns_v4());
}

/// The same for IPv6.
pub proof fn law_node_and_names_go_past_v6(ips: Seq<IpAddr>, x: u128)
    ensures
        bypass_v6(ips).contains(x) <==> v6_only(ips).contains(x) || dns_v6().contains(x),
{
    lemma_completed(v6_only(ips), dns_v6());
}

/// Every address of the node is in the list of its family.
pub proof fn law_no_address_is_lost(ips: Seq<IpAddr>, i: int)
    requires
        0 <= i < ips.len(),
    ensures
        match ips[i] {
            IpAddr::V4(a) => v4_only(ips).contains(a),
            IpAddr::V6(a) => v6_only(ips).contains(a),
        },
    decreases ips.len(),
{
    if i < ips.len() - 1 {
        law_no_address_is_lost(ips.drop_last(), i);
        assert(ips.drop_last()[i] == ips[i]);
        match ips[i] {
            IpAddr::V4(a) => {
                let p = v4_only(ips.drop_last());
                let k = choose|k: int| 0 <= k < p.len() && p[k] == a;
                assert(v4_only(ips)[k] == a);
            },
            IpAddr::V6(a) => {
                let p = v6_only(ips.drop_last());
                let k = choose|k: int| 0 <= k < p.len() && p[k] == a;
                assert(v6_only(ips)[k] == a);
            },
        }
    } else {
        match ips[i] {
            IpAddr::V4(a) => {
                let p = v4_only(ips.drop_last());
                assert(v4_only(ips)[p.len() as int] == a);
            },
            IpAddr::V6(a) => {
                let p = v6_only(ips.drop_last());
                assert(v6_only(ips)[p.len() as int] == a);
            },
        }
    }
}

// ---------------------------------------------------------------------------
// The guard
// ---------------------------------------------------------------------------

/// The promise that the routes are taken back, once.
pub struct TunRouteGuard {
    routes: Routes,
    restored: bool,
}

impl TunRouteGuard {
    /// The routes of the guard.
    pub closed spec fn routes(&self) -> RoutesModel {
        self.routes@
    }

    /// They were taken back.
    pub closed spec fn restored(&self) -> bool {
        self.restored
    }

    /// A guard over routes that were set up.
    pub fn new(routes: Routes) -> (r: Self)
        ensures
            r.routes() == routes@,
            !r.restored(),
    {
        TunRouteGuard { routes, restored: false }
    }

    /// The plan that takes the routes back, the first time; nothing later.
    pub fn restore(&mut self, platform: Platform, state: &mut TunState) -> (r: Vec<Step>)
        ensures
            final(self).restored(),
            final(self).routes() == old(self).routes(),
            old(self).restored() ==> plan::steps_of(r@) == Seq::<StepModel>::empty() && final(state)@ == old(state)@,
            !old(self).restored() ==> {
                &&& final(state)@ == (TunModel { routes: None, bind: None })
                &&& plan::steps_of(r@) == (match platform.known() {
                    Some(system) => restore_plan(system, old(self).routes()),
                    None => seq![],
                })
            },
    {
        if self.restored {
            let none: Vec<Step> = Vec::new();
            assert(plan::steps_of(none@) =~= Seq::<StepModel>::empty());
            return none;
        }
        self.restored = true;
        let steps: Vec<Step> = match platform.system() {
            Some(system) => restore_routes(system, &self.routes),
            None => Vec::new(),
        };
        assert(platform.known() is None ==> plan::steps_of(steps@) =~= Seq::<StepModel>::empty());
        state.clear();
        steps
    }
}

// ---------------------------------------------------------------------------
// Setting up, step by step
// ---------------------------------------------------------------------------

/// What is needed to lead traffic into the tunnel.
#[derive(Debug, Clone)]
pub struct TunRouteInfo {
    pub tun_name: String,
    pub tun_gateway: u32,
    /// Nothing where the tunnel has no IPv6 address.
    pub tun_gateway_v6: Option<u128>,
}

/// The setup of routes while it goes on.
pub struct RouteSetup {
    platform: Platform,
    info: TunRouteInfo,
    bypass_v4: Vec<u32>,
    bypass_v6: Vec<u128>,
    gateway: Option<(u32, String)>,
    gateway_v6: Option<(u128, String)>,
}

/// The same as contracts speak of it.
#[verifier::ext_equal]
pub struct SetupModel {
    pub platform: Platform,
    pub tun_name: Seq<char>,
    pub tun_gateway: u32,
    pub tun_gateway_v6: Option<u128>,
    pub bypass_v4: Seq<u32>,
    pub bypass_v6: Seq<u128>,
    pub gateway: Option<(u32, Seq<char>)>,
    pub gateway_v6: Option<(u128, Seq<char>)>,
}

impl View for RouteSetup {
    type V = SetupModel;

    closed spec fn view(&self) -> SetupModel {
        SetupModel {
            platform: self.platform,
            tun_name: self.info.tun_name@,
            tun_gateway: self.info.tun_gateway,
            tun_gateway_v6: self.info.tun_gateway_v6,
            bypass_v4: self.bypass_v4@,
            bypass_v6: self.bypass_v6@,
            gateway: gateway::v4_pair(self.gateway),
            gateway_v6: gateway::v6_pair(self.gateway_v6),
        }
    }
}

/// The routes that a setup comes to, with or without IPv6.
pub open spec fn setup_result(m: SetupModel, with_v6: bool) -> RoutesModel {
    RoutesModel {
        orig_gateway: (m.gateway->0).0,
        orig_iface: (m.gateway->0).1,
        bypass_ips: m.bypass_v4,
        v6: if with_v6 {
            Some(
                V6Model {
                    orig_gateway: (m.gateway_v6->0).0,
                    orig_iface: (m.gateway_v6->0).1,
                    tun_gateway: m.tun_gateway_v6->0,
                    tun_name: m.tun_name,
                    bypass_ips: m.bypass_v6,
                },
            )
        } else {
            None
        },
    }
}

/// The setup of routes begins: the default gateway is looked for first.
pub fn setup_tun_routes(platform: Platform, route_info: TunRouteInfo, proxy_server_ips: &[IpAddr]) -> (r:
    RouteSetup)
    ensures
        r@ == (SetupModel {
            platform,
            tun_name: route_info.tun_name@,
            tun_gateway: route_info.tun_gateway,
            tun_gateway_v6: route_info.tun_gateway_v6,
            bypass_v4: bypass_v4(proxy_server_ips@),
            bypass_v6: bypass_v6(proxy_server_ips@),
            gateway: None,
            gateway_v6: None,
        }),
{
    let (v4, v6) = bypass_addresses(proxy_server_ips);
    RouteSetup {
        platform,
        info: route_info,
        bypass_v4: v4,
        bypass_v6: v6,
        gateway: None,
        gateway_v6: None,
    }
}

impl RouteSetup {
    /// The default gateway was found. The program's own sockets are bound to
    /// its interface before any route changes; then the plan is carried out.
    /// `index` is the index of the interface, where the platform needs one.
    pub fn on_gateway(
        &mut self,
        state: &mut TunState,
        gw: u32,
        iface: String,
        index: Option<u32>,
        hint: &str,
    ) -> (r: Vec<Step>)
        ensures
            final(self)@ == (SetupModel { gateway: Some((gw, iface@)), ..old(self)@ }),
            final(state)@.routes == old(state)@.routes,
            binds_past(
                old(self)@.platform,
                old(state)@.bind,
                iface@,
                index,
                final(state)@.bind,
            ),
            is_setup(old(self)@, gw, iface@, hint@, plan::steps_of(r@)),
    {
        state.install_outbound_bind(self.platform, iface.as_str(), index);
        let steps: Vec<Step> = match self.platform.system() {
            Some(system) => setup_routes(
                system,
                self.info.tun_name.as_str(),
                self.info.tun_gateway,
                &self.bypass_v4,
                gw,
                iface.as_str(),
                hint,
            ),
            None => Vec::new(),
        };
        assert(self.platform.known() is None ==> plan::steps_of(steps@) =~= Seq::<StepModel>::empty());
        self.gateway = Some((gw, iface));
        steps
    }

    /// The IPv6 gateway is to be looked for: only where the tunnel has an
    /// IPv6 address.
    pub fn wants_v6(&self) -> (r: bool)
        ensures
            r == self@.tun_gateway_v6 is Some,
    {
        self.info.tun_gateway_v6.is_some()
    }

    /// The IPv6 gateway was found: the plan for IPv6. Its failure leaves the
    /// tunnel with IPv4 only.
    pub fn on_gateway_v6(&mut self, gw: u128, iface: String, hint: &str) -> (r: Vec<Step>)
        requires
            old(self)@.tun_gateway_v6 is Some,
        ensures
            final(self)@ == (SetupModel { gateway_v6: Some((gw, iface@)), ..old(self)@ }),
            plan::steps_of(r@) == (match old(self)@.platform.known() {
                Some(system) => setup_plan_v6(
                    system,
                    old(self)@.tun_name,
                    old(self)@.tun_gateway_v6->0,
                    old(self)@.bypass_v6,
                    gw,
                    iface@,
                    hint@,
                ),
                None => seq![],
            }),
    {
        let tun_gateway: u128 = match self.info.tun_gateway_v6 {
            Some(g) => g,
            None => 0,
        };
        let steps: Vec<Step> = match self.platform.system() {
            Some(system) => setup_routes_v6(
                system,
                self.info.tun_name.as_str(),
                tun_gateway,
                &self.bypass_v6,
                gw,
                iface.as_str(),
                hint,
            ),
            None => Vec::new(),
        };
        assert(self.platform.known() is None ==> plan::steps_of(steps@) =~= Seq::<StepModel>::empty());
        self.gateway_v6 = Some((gw, iface));
        steps
    }

    /// The plan that takes back what the failed setup for IPv6 may have left.
    pub fn rollback_v6(&self) -> (r: Vec<Step>)
        ensures
            plan::steps_of(r@) == (match self@.platform.known() {
                Some(system) => match self@.gateway_v6 {
                    Some((_, iface)) => remove_steps_v6(system, self@.bypass_v6, iface),
                    None => seq![],
                },
                None => seq![],
            }),
    {
        let steps: Vec<Step> = match self.platform.system() {
            Some(system) => match &self.gateway_v6 {
                Some((_, iface)) => rollback_routes_v6(system, &self.bypass_v6, iface.as_str()),
                None => Vec::new(),
            },
            None => Vec::new(),
        };
        assert(self@.platform.known() is None || self@.gateway_v6 is None ==> plan::steps_of(
            steps@,
        ) =~= Seq::<StepModel>::empty());
        steps
    }

    /// The setup is over: what was set up is remembered, and a guard promises
    /// to take it back. `with_v6` says whether IPv6 was set up.
    pub fn finish(self, state: &mut TunState, with_v6: bool) -> (r: TunRouteGuard)
        requires
            self@.gateway is Some,
            with_v6 ==> self@.gateway_v6 is Some && self@.tun_gateway_v6 is Some,
        ensures
            r.routes() == setup_result(self@, with_v6),
            !r.restored(),
            final(state)@ == (TunModel {
                routes: Some(setup_result(self@, with_v6)),
                ..old(state)@
            }),
    {
        let ghost m = self@;
        let (gw, iface) = match self.gateway {
            Some(g) => g,
            None => (0, text::string_of(Vec::new().as_slice())),
        };
        let tun_gateway: u128 = match self.info.tun_gateway_v6 {
            Some(g) => g,
            None => 0,
        };
        let v6: Option<V6Routes> = if with_v6 {
            match self.gateway_v6 {
                Some((gw6, iface6)) => Some(
                    V6Routes {
                        orig_gateway: gw6,
                        orig_iface: iface6,
                        tun_gateway,
                        tun_name: self.info.tun_name,
                        bypass_ips: self.bypass_v6,
                    },
                ),
                None => None,
            }
        } else {
            None
        };
        let routes = Routes { orig_gateway: gw, orig_iface: iface, bypass_ips: self.bypass_v4, v6 };
        assert(routes@ =~= setup_result(m, with_v6));
        state.save(routes.duplicate());
        TunRouteGuard::new(routes)
    }
}

// ---------------------------------------------------------------------------
// What the commands do
// ---------------------------------------------------------------------------

/// The command leads packets to this address, and to no other, to a gateway.
pub open spec fn leads_past(system: System, c: commands::CommandModel, ip: u32, gw: u32) -> bool {
    match system {
        System::Linux => c.program == "ip"@ && c.args.len() >= 5 && c.args[0] == "route"@ && c.args[1]
            == "add"@ && c.args[2] == crate::net::v4_text(ip) + "/32"@ && c.args[3] == "via"@
            && c.args[4] == crate::net::v4_text(gw),
        System::Macos => c.program == "route"@ && c.args.len() == 5 && c.args[0] == "-n"@
            && c.args[1] == "add"@ && c.args[2] == "-host"@ && c.args[3] == crate::net::v4_text(ip)
            && c.args[4] == crate::net::v4_text(gw),
        System::Windows => c.program == "route"@ && c.args.len() >= 5 && c.args[0] == "add"@
            && c.args[1] == crate::net::v4_text(ip) && c.args[2] == "mask"@ && c.args[3]
            == "255.255.255.255"@ && c.args[4] == crate::net::v4_text(gw),
    }
}

/// The command takes such a route back.
pub open spec fn takes_back(system: System, c: commands::CommandModel, ip: u32) -> bool {
    match system {
        System::Linux => c.program == "ip"@ && c.args.len() == 3 && c.args[0] == "route"@ && c.args[1]
            == "del"@ && c.args[2] == crate::net::v4_text(ip) + "/32"@,
        System::Macos => c.program == "route"@ && c.args.len() == 4 && c.args[0] == "-n"@
            && c.args[1] == "delete"@ && c.args[2] == "-host"@ && c.args[3] == crate::net::v4_text(
            ip,
        ),
        System::Windows => c.program == "route"@ && c.args.len() >= 2 && c.args[0] == "delete"@
            && c.args[1] == crate::net::v4_text(ip),
    }
}

/// The command leads packets to this address, and to no other, to a gateway on
/// an interface.
pub open spec fn leads_past_v6(
    system: System,
    c: commands::CommandModel,
    ip: u128,
    gw: u128,
    iface: Seq<char>,
) -> bool {
    let to = crate::net::v6_text(ip);
    let via = crate::net::v6_text(gw);
    match system {
        System::Linux => c == commands::command_of(
            "ip"@,
            seq!["-6"@, "route"@, "add"@, to + "/128"@, "via"@, via, "dev"@, iface],
        ),
        System::Macos => c.program == "route"@ && c.args.len() == 6 && c.args[0] == "-n"@
            && c.args[1] == "add"@ && c.args[2] == "-inet6"@ && c.args[3] == "-host"@ && c.args[4]
            == to && (c.args[5] == via || c.args[5] == via + ("%"@ + iface)),
        System::Windows => c.program == "netsh"@ && c.args.len() == 8 && c.args.take(4) == seq![
            "interface"@,
            "ipv6"@,
            "add"@,
            "route"@,
        ] && c.args[4] == "prefix="@ + (to + "/128"@) && c.args[5] == "interface="@ + iface
            && c.args[6] == "nexthop="@ + via,
    }
}

/// The command takes such a route back.
pub open spec fn takes_back_v6(system: System, c: commands::CommandModel, ip: u128, iface: Seq<char>) -> bool {
    let to = crate::net::v6_text(ip);
    match system {
        System::Linux => c == commands::command_of(
            "ip"@,
            seq!["-6"@, "route"@, "del"@, to + "/128"@],
        ),
        System::Macos => c == commands::command_of(
            "route"@,
            seq!["-n"@, "delete"@, "-inet6"@, "-host"@, to],
        ),
        System::Windows => c == commands::command_of(
            "netsh"@,
            seq![
                "interface"@,
                "ipv6"@,
                "delete"@,
                "route"@,
                "prefix="@ + (to + "/128"@),
                "interface="@ + iface,
            ],
        ),
    }
}

/// Before all other traffic is led into the tunnel, the addresses that must not
/// go through it are led past it, each to the gateway that was there before;
/// the last step leads all other traffic to the gateway of the tunnel, and it
/// has to succeed.
pub proof fn law_setup_leads_past_the_tunnel_first(
    system: System,
    tun_name: Seq<char>,
    tun_gateway: u32,
    bypass: Seq<u32>,
    gw: u32,
    iface: Seq<char>,
    hint: Seq<char>,
    k: int,
)
    requires
        0 <= k < bypass.len(),
    ensures
        ({
            let p = setup_plan(system, tun_name, tun_gateway, bypass, gw, iface, hint);
            let i = k + (if system == System::Linux {
                1int
            } else {
                0int
            });
            let tun = crate::net::v4_text(tun_gateway);
            &&& 0 <= i < p.len() - 1
            &&& p[i] matches StepModel::Run(c) && leads_past(system, c, bypass[k], gw)
            &&& match system {
                System::Linux => p.last() matches StepModel::Must { command, failure }
                    && command.program == "ip"@ && command.args.take(7) == seq![
                    "route"@,
                    "add"@,
                    "default"@,
                    "via"@,
                    tun,
                    "dev"@,
                    tun_name,
                ],
                System::Macos => p.last() matches StepModel::Replace {
                    change,
                    delete,
                    add,
                    failure,
                } && failure is Some && change == commands::command_of(
                    "route"@,
                    seq!["-n"@, "change"@, "default"@, tun],
                ) && add == commands::command_of("route"@, seq!["-n"@, "add"@, "default"@, tun]),
                System::Windows => p.last() matches StepModel::Must { command, failure }
                    && command.program == "route"@ && command.args.take(5) == seq![
                    "add"@,
                    "0.0.0.0"@,
                    "mask"@,
                    "0.0.0.0"@,
                    tun,
                ],
            }
        }),
{
    let p = setup_plan(system, tun_name, tun_gateway, bypass, gw, iface, hint);
    let tun = crate::net::v4_text(tun_gateway);
    match system {
        System::Linux => {
            let c = commands::linux_default_add_tun_line(tun_gateway, tun_name);
            assert(c.args.take(7) =~= seq![
                "route"@,
                "add"@,
                "default"@,
                "via"@,
                tun,
                "dev"@,
                tun_name,
            ]);
        },
        System::Macos => {},
        System::Windows => {
            let c = commands::windows_default_add_tun_line(tun_gateway);
            assert(c.args.take(5) =~= seq!["add"@, "0.0.0.0"@, "mask"@, "0.0.0.0"@, tun]);
        },
    }
}

/// The same for IPv6.
pub proof fn law_v6_setup_leads_past_the_tunnel_first(
    system: System,
    tun_name: Seq<char>,
    tun_gateway: u128,
    bypass: Seq<u128>,
    gw: u128,
    iface: Seq<char>,
    hint: Seq<char>,
    k: int,
)
    requires
        0 <= k < bypass.len(),
    ensures
        ({
            let p = setup_plan_v6(system, tun_name, tun_gateway, bypass, gw, iface, hint);
            let i = k + (if system == System::Linux {
                1int
            } else {
                0int
            });
            let tun = crate::net::v6_text(tun_gateway);
            &&& 0 <= i < p.len() - 1
            &&& p[i] matches StepModel::Run(c) && leads_past_v6(system, c, bypass[k], gw, iface)
            &&& match system {
                System::Linux => p.last() matches StepModel::Must { command, failure }
                    && command.program == "ip"@ && command.args.take(8) == seq![
                    "-6"@,
                    "route"@,
                    "add"@,
                    "default"@,
                    "via"@,
                    tun,
                    "dev"@,
                    tun_name,
                ],
                System::Macos => p.last() matches StepModel::Replace {
                    change,
                    delete,
                    add,
                    failure,
                } && failure is Some && add == commands::command_of(
                    "route"@,
                    seq!["-n"@, "add"@, "-inet6"@, "default"@, tun],
                ),
                System::Windows => p.last() matches StepModel::Must { command, failure }
                    && command.program == "netsh"@ && command.args.take(7) == seq![
                    "interface"@,
                    "ipv6"@,
                    "add"@,
                    "route"@,
                    "prefix=::/0"@,
                    "interface="@ + tun_name,
                    "nexthop="@ + tun,
                ],
            }
        }),
{
    let tun = crate::net::v6_text(tun_gateway);
    match system {
        System::Linux => {
            assert(commands::linux_v6_default_add_line(tun_gateway, tun_name).take(8) =~= seq![
                "-6"@,
                "route"@,
                "add"@,
                "default"@,
                "via"@,
                tun,
                "dev"@,
                tun_name,
            ]);
        },
        System::Macos => {},
        System::Windows => {
            assert(commands::windows_v6_add_default_line(tun_name, tun_gateway, Some(3)).take(7)
                =~= seq![
                "interface"@,
                "ipv6"@,
                "add"@,
                "route"@,
                "prefix=::/0"@,
                "interface="@ + tun_name,
                "nexthop="@ + tun,
            ]);
            assert(commands::windows_v6_bypass_add_line(bypass[k], iface, gw).take(4) =~= seq![
                "interface"@,
                "ipv6"@,
                "add"@,
                "route"@,
            ]);
        },
    }
}

/// What led past the tunnel is taken back one by one, in a shutdown and in an
/// emergency; and what led into it is taken back before that: on macOS by
/// leading all traffic to the gateway that was there before, elsewhere by
/// deleting the route to the gateway of the tunnel. In an emergency the route
/// to the gateway that was there before is put back, unless it is still there.
pub proof fn law_restoring_undoes_the_setup(
    system: System,
    m: RoutesModel,
    current_gateway: Option<u32>,
    k: int,
)
    requires
        0 <= k < m.bypass_ips.len(),
    ensures
        ({
            let r = restore_plan(system, m);
            let e = emergency_plan(system, m, current_gateway);
            let put_back = system == System::Linux || system == System::Windows && current_gateway
                != Some(m.orig_gateway);
            let j = k + (if put_back {
                2int
            } else {
                1int
            });
            let tun = crate::net::v4_text(0x0a0a_0001);
            let orig = crate::net::v4_text(m.orig_gateway);
            let undone = |s: StepModel|
                match system {
                    System::Linux => s == StepModel::Run(
                        commands::command_of(
                            "ip"@,
                            seq!["route"@, "del"@, "default"@, "via"@, tun],
                        ),
                    ),
                    System::Macos => s matches StepModel::Replace { change, delete, add, failure }
                        && failure is None && change == commands::command_of(
                        "route"@,
                        seq!["-n"@, "change"@, "default"@, orig],
                    ) && add == commands::command_of(
                        "route"@,
                        seq!["-n"@, "add"@, "default"@, orig],
                    ),
                    System::Windows => s == StepModel::Run(
                        commands::command_of(
                            "route"@,
                            seq!["delete"@, "0.0.0.0"@, "mask"@, "0.0.0.0"@, tun],
                        ),
                    ),
                };
            &&& 1 + k < r.len() && j < e.len()
            &&& undone(r[0]) && undone(e[0])
            &&& r[1 + k] matches StepModel::Run(c) && takes_back(system, c, m.bypass_ips[k])
            &&& e[j] matches StepModel::Run(c) && takes_back(system, c, m.bypass_ips[k])
            &&& put_back && system == System::Linux ==> e[1] == StepModel::Run(
                commands::command_of(
                    "ip"@,
                    seq!["route"@, "add"@, "default"@, "via"@, orig, "dev"@, m.orig_iface],
                ),
            )
            &&& put_back && system == System::Windows ==> (e[1] matches StepModel::Run(c)
                && c.program == "route"@ && c.args.take(5) == seq![
                "add"@,
                "0.0.0.0"@,
                "mask"@,
                "0.0.0.0"@,
                orig,
            ])
        }),
{
    let orig = crate::net::v4_text(m.orig_gateway);
    assert(commands::windows_default_add_line(m.orig_gateway).args.take(5) =~= seq![
        "add"@,
        "0.0.0.0"@,
        "mask"@,
        "0.0.0.0"@,
        orig,
    ]);
}

/// The same for IPv6: the route into the tunnel is taken back, and every route
/// past it.
pub proof fn law_v6_restoring_undoes_the_setup(system: System, v6: V6Model, k: int)
    requires
        0 <= k < v6.bypass_ips.len(),
    ensures
        ({
            let r = restore_plan_v6(system, v6);
            let j = k + (if system == System::Windows {
                2int
            } else {
                1int
            });
            let tun = crate::net::v6_text(v6.tun_gateway);
            let orig = crate::net::v6_text(v6.orig_gateway);
            &&& j < r.len()
            &&& r[j] matches StepModel::Run(c) && takes_back_v6(
                system,
                c,
                v6.bypass_ips[k],
                v6.orig_iface,
            )
            &&& match system {
                System::Linux => r[0] == StepModel::Run(
                    commands::command_of(
                        "ip"@,
                        seq!["-6"@, "route"@, "del"@, "default"@, "via"@, tun, "dev"@, v6.tun_name],
                    ),
                ),
                System::Macos => r[0] matches StepModel::Replace { change, delete, add, failure }
                    && (add == commands::command_of(
                    "route"@,
                    seq!["-n"@, "add"@, "-inet6"@, "default"@, orig],
                ) || add == commands::command_of(
                    "route"@,
                    seq!["-n"@, "add"@, "-inet6"@, "default"@, orig + ("%"@ + v6.orig_iface)],
                )),
                System::Windows => r[0] == StepModel::Run(
                    commands::command_of(
                        "netsh"@,
                        seq![
                            "interface"@,
                            "ipv6"@,
                            "delete"@,
                            "route"@,
                            "prefix=::/0"@,
                            "interface="@ + v6.tun_name,
                        ],
                    ),
                ) && r[1] == StepModel::Run(
                    commands::command_of(
                        "netsh"@,
                        seq![
                            "interface"@,
                            "ipv6"@,
                            "add"@,
                            "route"@,
                            "prefix=::/0"@,
                            "interface="@ + v6.orig_iface,
                            "nexthop="@ + orig,
                        ],
                    ),
                ),
            }
        }),
{
}

/// When the addresses that go past the tunnel change, those that left are taken
/// back first, and those that came are led to the gateway that was there
/// before the tunnel.
pub proof fn law_update_follows_the_addresses(
    system: System,
    m: RoutesModel,
    new_v4: Seq<u32>,
    new_v6: Seq<u128>,
    ip: u32,
)
    ensures
        ({
            let p = update_plan(system, m, new_v4, new_v6);
            &&& m.bypass_ips.contains(ip) && !new_v4.contains(ip) ==> exists|i: int|
                0 <= i < p.len() && (#[trigger] p[i] matches StepModel::Run(c) && takes_back(
                    system,
                    c,
                    ip,
                ))
            &&& !m.bypass_ips.contains(ip) && new_v4.contains(ip) ==> exists|i: int|
                0 <= i < p.len() && (#[trigger] p[i] matches StepModel::Run(c) && leads_past(
                    system,
                    c,
                    ip,
                    m.orig_gateway,
                ))
            &&& updated(m, new_v4, new_v6).bypass_ips == new_v4
        }),
{
    let p = update_plan(system, m, new_v4, new_v6);
    let gone = without(m.bypass_ips, new_v4);
    let came = without(new_v4, m.bypass_ips);
    law_exemptions_are_in_step(m.bypass_ips, new_v4, ip);
    law_exemptions_are_in_step(new_v4, m.bypass_ips, ip);
    if m.bypass_ips.contains(ip) && !new_v4.contains(ip) {
        let k = choose|k: int| 0 <= k < gone.len() && gone[k] == ip;
        assert(p[k] == StepModel::Run(
            commands::remove_bypass_route_line(system, ip, m.orig_gateway),
        ));
    }
    if !m.bypass_ips.contains(ip) && new_v4.contains(ip) {
        let k = choose|k: int| 0 <= k < came.len() && came[k] == ip;
        assert(p[gone.len() + k] == StepModel::Run(
            commands::add_bypass_route_line(system, ip, m.orig_gateway),
        ));
    }
}

/// The servers for names that go past the tunnel, by their addresses.
pub proof fn law_name_servers_go_past(ips: Seq<IpAddr>)
    ensures
        bypass_v4(ips).contains(0x0808_0808u32),
        bypass_v4(ips).contains(0x0101_0101u32),
        bypass_v4(ips).contains(0xdf05_0505u32),
        bypass_v4(ips).contains(0x771d_1d1du32),
        bypass_v6(ips).contains(0x2001_4860_4860_0000_0000_0000_0000_8888u128),
        bypass_v6(ips).contains(0x2606_4700_4700_0000_0000_0000_0000_1111u128),
        bypass_v6(ips).contains(0x2400_3200_0000_0000_0000_0000_0000_0001u128),
        bypass_v6(ips).contains(0x2402_4e00_0000_0000_0000_0000_0000_0000u128),
{
    let d = dns_v4();
    let e = dns_v6();
    assert(d[0] == 0x0808_0808u32 && d[1] == 0x0101_0101u32 && d[2] == 0xdf05_0505u32 && d[3]
        == 0x771d_1d1du32);
    law_node_and_names_go_past(ips, d[0]);
    law_node_and_names_go_past(ips, d[1]);
    law_node_and_names_go_past(ips, d[2]);
    law_node_and_names_go_past(ips, d[3]);
    law_node_and_names_go_past_v6(ips, e[0]);
    law_node_and_names_go_past_v6(ips, e[1]);
    law_node_and_names_go_past_v6(ips, e[2]);
    law_node_and_names_go_past_v6(ips, e[3]);
}

/// To which interface the sockets that go past the tunnel are tied.
pub open spec fn binds_past(
    platform: Platform,
    before: Option<BindModel>,
    iface: Seq<char>,
    index: Option<u32>,
    after: Option<BindModel>,
) -> bool {
    &&& platform == Platform::Linux ==> after == Some(
        BindModel { if_index_v4: None, if_index_v6: None, if_name: Some(iface) },
    )
    &&& platform == Platform::Windows && index is Some ==> after == Some(
        BindModel { if_index_v4: index, if_index_v6: None, if_name: None },
    )
    &&& platform == Platform::Macos && index is Some ==> after == Some(
        BindModel { if_index_v4: index, if_index_v6: index, if_name: None },
    )
    &&& platform != Platform::Linux && (index is None || platform == Platform::Other) ==> after
        == before
}

/// The steps that lead the traffic into the tunnel once the gateway is known.
pub open spec fn is_setup(
    m: SetupModel,
    gw: u32,
    iface: Seq<char>,
    hint: Seq<char>,
    steps: Seq<plan::StepModel>,
) -> bool {
    steps == (match m.platform.known() {
        Some(system) => setup_plan(
            system,
            m.tun_name,
            m.tun_gateway,
            m.bypass_v4,
            gw,
            iface,
            hint,
        ),
        None => seq![],
    })
}

/// Sockets that are to go past the tunnel are tied to the interface of the gateway: by its name
/// on Linux, and by its index elsewhere, for both kinds of address on macOS.
pub proof fn law_sockets_are_tied_to_the_gateway(
    platform: Platform,
    before: Option<BindModel>,
    iface: Seq<char>,
    index: u32,
    after: Option<BindModel>,
)
    requires
        platform != Platform::Other,
        binds_past(platform, before, iface, Some(index), after),
    ensures
        after is Some,
        platform == Platform::Linux ==> after->0.if_name == Some(iface) && after->0.if_index_v4
            is None,
        platform != Platform::Linux ==> after->0.if_index_v4 == Some(index) && after->0.if_name
            is None,
        platform == Platform::Macos ==> after->0.if_index_v6 == Some(index),
        platform == Platform::Windows ==> after->0.if_index_v6 is None,
{
}

/// Once the gateway is known, every server is led past the tunnel to it, and what is noted for
/// the way back is that gateway, its interface and those servers.
pub proof fn law_setup_uses_the_gateway(
    m: SetupModel,
    system: System,
    gw: u32,
    iface: Seq<char>,
    hint: Seq<char>,
    steps: Seq<plan::StepModel>,
    k: int,
)
    requires
        m.platform.known() == Some(system),
        is_setup(m, gw, iface, hint, steps),
        0 <= k < m.bypass_v4.len(),
    ensures
        exists|i: int|
            0 <= i < steps.len() - 1 && (#[trigger] steps[i] matches StepModel::Run(c)
                && leads_past(system, c, m.bypass_v4[k], gw)),
        ({
            let done = setup_result(SetupModel { gateway: Some((gw, iface)), ..m }, false);
            done.orig_gateway == gw && done.orig_iface == iface && done.bypass_ips == m.bypass_v4
                && done.v6 is None
        }),
{
    law_setup_leads_past_the_tunnel_first(
        system,
        m.tun_name,
        m.tun_gateway,
        m.bypass_v4,
        gw,
        iface,
        hint,
        k,
    );
    let i = k + (if system == System::Linux {
        1int
    } else {
        0int
    });
    assert(steps[i] matches StepModel::Run(c) && leads_past(system, c, m.bypass_v4[k], gw));
}

} // verus!
