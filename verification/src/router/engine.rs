//! Rules, and the router that applies them.

use std::sync::Arc;
use vstd::prelude::*;

use crate::config::RoutingRule;
use crate::net;
use crate::net::{IpAddr, SocketAddr};
use crate::router::geoip;
use crate::router::geoip::GeoIpDb;
use crate::text;

verus! {

broadcast use {
    vstd::seq::group_seq_axioms,
    vstd::slice::group_slice_axioms,
    vstd::string::group_string_axioms,
    vstd::std_specs::vec::group_vec_axioms,
};

/// How many decisions are remembered.
pub const ROUTE_CACHE_CAP: usize = 4096;

/// What is done with a connection.
#[derive(Debug, Clone, Copy, PartialEq, Eq, Structural)]
pub enum RouteAction {
    /// It goes through the proxy.
    Proxy,
    /// It goes straight to its target.
    Direct,
    /// It is refused.
    Reject,
}

/// A condition on the target of a connection.
#[derive(Debug, Clone)]
pub enum MatchRule {
    /// The name.
    Domain(String),
    /// The end of the name, with its dot; the name without the dot fits too.
    DomainSuffix(String),
    /// A part of the name.
    DomainKeyword(String),
    /// A range of addresses.
    IpCidr { addr: IpAddr, prefix_len: u8 },
    /// The country of the address.
    GeoIp(String),
    /// Any target.
    MatchAll,
}

/// A condition on the target of a connection.
pub enum RuleModel {
    Domain(Seq<char>),
    DomainSuffix(Seq<char>),
    DomainKeyword(Seq<char>),
    IpCidr { addr: IpAddr, prefix_len: u8 },
    GeoIp(Seq<char>),
    MatchAll,
}

impl View for MatchRule {
    type V = RuleModel;

    open spec fn view(&self) -> RuleModel {
        match self {
            MatchRule::Domain(s) => RuleModel::Domain(s@),
            MatchRule::DomainSuffix(s) => RuleModel::DomainSuffix(s@),
            MatchRule::DomainKeyword(s) => RuleModel::DomainKeyword(s@),
            MatchRule::IpCidr { addr, prefix_len } => RuleModel::IpCidr {
                addr: *addr,
                prefix_len: *prefix_len,
            },
            MatchRule::GeoIp(s) => RuleModel::GeoIp(s@),
            MatchRule::MatchAll => RuleModel::MatchAll,
        }
    }
}

/// A rule: a condition and what is done where it holds.
#[derive(Debug, Clone)]
pub struct RuleEntry {
    pub rule: MatchRule,
    pub action: RouteAction,
}

/// A rule: a condition and what is done where it holds.
pub struct EntryModel {
    pub rule: RuleModel,
    pub action: RouteAction,
}

impl View for RuleEntry {
    type V = EntryModel;

    open spec fn view(&self) -> EntryModel {
        EntryModel { rule: self.rule@, action: self.action }
    }
}

/// What rules hold.
pub open spec fn entry_models(v: Seq<RuleEntry>) -> Seq<EntryModel> {
    v.map_values(|e: RuleEntry| e@)
}

/// A prefix is not longer than the address.
pub open spec fn prefix_fits(addr: IpAddr, prefix_len: u8) -> bool {
    match addr {
        IpAddr::V4(_) => prefix_len <= 32,
        IpAddr::V6(_) => prefix_len <= 128,
    }
}

/// The prefix of a range, if the condition is one, is not too long.
pub open spec fn rule_is_sound(rule: RuleModel) -> bool {
    rule matches RuleModel::IpCidr { addr, prefix_len } ==> prefix_fits(addr, prefix_len)
}

/// The first bits of the address are those of the network.
pub open spec fn in_network(ip: IpAddr, network: IpAddr, prefix_len: u8) -> bool {
    match (ip, network) {
        (IpAddr::V4(a), IpAddr::V4(b)) => geoip::same_prefix(
            a as u128,
            b as u128,
            (32 - prefix_len) as u32,
        ),
        (IpAddr::V6(a), IpAddr::V6(b)) => geoip::same_prefix(a, b, (128 - prefix_len) as u32),
        _ => false,
    }
}

/// The first bits of the address are those of the network; addresses of the
/// two families have none in common.
pub fn cidr_match(ip: IpAddr, network: IpAddr, prefix_len: u8) -> (r: bool)
    requires
        prefix_fits(network, prefix_len),
    ensures
        r == in_network(ip, network, prefix_len),
{
    match (ip, network) {
        (IpAddr::V4(a), IpAddr::V4(b)) => geoip::agree(
            a as u128,
            b as u128,
            32 - prefix_len as u32,
        ),
        (IpAddr::V6(a), IpAddr::V6(b)) => geoip::agree(a, b, 128 - prefix_len as u32),
        _ => false,
    }
}

/// The network that a text writes: an address, a slash, and a length that
/// fits it.
pub open spec fn network_of(cidr: Seq<char>) -> Option<(IpAddr, u8)> {
    match geoip::range_of(cidr) {
        Some((addr, p)) => if prefix_fits(addr, p) {
            Some((addr, p))
        } else {
            None
        },
        None => None,
    }
}

/// The network that a text writes.
pub fn parse_cidr(cidr: &str) -> (r: Option<(IpAddr, u8)>)
    ensures
        r == network_of(cidr@),
{
    match geoip::parse_range(text::chars_of(cidr).as_slice()) {
        Some((addr, p)) => {
            let limit: u8 = match addr {
                IpAddr::V4(_) => 32,
                IpAddr::V6(_) => 128,
            };
            if p > limit {
                None
            } else {
                Some((addr, p))
            }
        },
        None => None,
    }
}

// ---------------------------------------------------------------------------
// Rule sets
// ---------------------------------------------------------------------------

/// What is done where a rule names this target.
pub open spec fn action_named(target: Seq<char>) -> RouteAction {
    let t = text::folded(target);
    if t == "direct"@ {
        RouteAction::Direct
    } else if t == "reject"@ || t == "block"@ {
        RouteAction::Reject
    } else {
        RouteAction::Proxy
    }
}

/// The condition that a type and a pattern make, if they make one.
pub open spec fn condition_of(rule_type: Seq<char>, pattern: Seq<char>) -> Option<RuleModel> {
    let t = text::folded(rule_type);
    let p = text::folded(pattern);
    if t == "domain"@ {
        Some(RuleModel::Domain(p))
    } else if t == "domain-suffix"@ {
        Some(
            RuleModel::DomainSuffix(
                if p.len() > 0 && p[0] == '.' {
                    p
                } else {
                    seq!['.'] + p
                },
            ),
        )
    } else if t == "domain-keyword"@ {
        Some(RuleModel::DomainKeyword(p))
    } else if t == "ip-cidr"@ {
        match network_of(pattern) {
            Some((addr, prefix_len)) => Some(RuleModel::IpCidr { addr, prefix_len }),
            None => None,
        }
    } else if t == "geoip"@ {
        Some(RuleModel::GeoIp(text::raised(pattern)))
    } else if t == "match"@ || t == "final"@ {
        Some(RuleModel::MatchAll)
    } else {
        None
    }
}

/// The rules that a configuration makes. Rules that are switched off, and
/// rules that make no condition, are left out.
pub open spec fn compiled(rules: Seq<RoutingRule>) -> Seq<EntryModel>
    decreases rules.len(),
{
    if rules.len() == 0 {
        seq![]
    } else {
        let before = compiled(rules.drop_last());
        let r = rules.last();
        match condition_of(r.rule_type@, r.pattern@) {
            Some(rule) => if r.enabled {
                before.push(EntryModel { rule, action: action_named(r.target@) })
            } else {
                before
            },
            None => before,
        }
    }
}

fn action_for(target: &str) -> (r: RouteAction)
    ensures
        r == action_named(target@),
{
    let t = text::fold(target);
    let s = t.as_str();
    if text::str_eq(s, "direct") {
        RouteAction::Direct
    } else if text::str_eq(s, "reject") || text::str_eq(s, "block") {
        RouteAction::Reject
    } else {
        RouteAction::Proxy
    }
}

fn condition_for(rule_type: &str, pattern: &str) -> (r: Option<MatchRule>)
    ensures
        r is Some == condition_of(rule_type@, pattern@) is Some,
        r matches Some(m) ==> condition_of(rule_type@, pattern@) == Some(m@) && rule_is_sound(m@),
{
    let t = text::fold(rule_type);
    let s = t.as_str();
    if text::str_eq(s, "domain") {
        return Some(MatchRule::Domain(text::fold(pattern)));
    }
    if text::str_eq(s, "domain-suffix") {
        let p = text::fold(pattern);
        let chars = text::chars_of(p.as_str());
        if chars.len() > 0 && chars[0] == '.' {
            return Some(MatchRule::DomainSuffix(p));
        }
        let mut out: Vec<char> = Vec::new();
        out.push('.');
        text::append_chars(&mut out, chars.as_slice());
        assert(out@ =~= seq!['.'] + p@);
        return Some(MatchRule::DomainSuffix(text::string_of(out.as_slice())));
    }
    if text::str_eq(s, "domain-keyword") {
        return Some(MatchRule::DomainKeyword(text::fold(pattern)));
    }
    if text::str_eq(s, "ip-cidr") {
        return match parse_cidr(pattern) {
            Some((addr, prefix_len)) => Some(MatchRule::IpCidr { addr, prefix_len }),
            None => None,
        };
    }
    if text::str_eq(s, "geoip") {
        return Some(MatchRule::GeoIp(text::raise(pattern)));
    }
    if text::str_eq(s, "match") || text::str_eq(s, "final") {
        return Some(MatchRule::MatchAll);
    }
    None
}

/// Rules in the order in which they are tried, and what is done where none
/// of them holds.
#[derive(Debug, Clone)]
pub struct RuleSet {
    pub rules: Vec<RuleEntry>,
    pub default_action: RouteAction,
}

impl Default for RuleSet {
    fn default() -> (r: Self)
        ensures
            r.wf(),
            entry_models(r.rules@) == Seq::<EntryModel>::empty(),
            r.default_action == RouteAction::Proxy,
    {
        RuleSet::new()
    }
}

impl RuleSet {
    /// No prefix is too long.
    pub open spec fn wf(self) -> bool {
        forall|i: int| 0 <= i < self.rules@.len() ==> rule_is_sound((#[trigger] self.rules@[i]).rule@)
    }

    /// No rules: everything goes through the proxy.
    pub fn new() -> (r: Self)
        ensures
            r.wf(),
            entry_models(r.rules@) == Seq::<EntryModel>::empty(),
            r.default_action == RouteAction::Proxy,
    {
        let r = RuleSet { rules: Vec::new(), default_action: RouteAction::Proxy };
        assert(entry_models(r.rules@) =~= seq![]);
        r
    }

    /// What is done where no rule holds.
    pub fn set_default(&mut self, action: RouteAction)
        ensures
            *final(self) == (RuleSet { default_action: action, ..*old(self) }),
    {
        self.default_action = action;
    }

    /// Adds a rule behind the others.
    pub fn add_rule(&mut self, rule: MatchRule, action: RouteAction)
        requires
            old(self).wf(),
            rule_is_sound(rule@),
        ensures
            final(self).wf(),
            final(self).default_action == old(self).default_action,
            entry_models(final(self).rules@) == entry_models(old(self).rules@).push(
                EntryModel { rule: rule@, action },
            ),
    {
        let ghost e = EntryModel { rule: rule@, action };
        self.rules.push(RuleEntry { rule, action });
        assert(entry_models(self.rules@) =~= entry_models(old(self).rules@).push(e));
    }

    /// The rules that a configuration makes.
    pub fn from_config(rules: &[RoutingRule]) -> (r: Self)
        ensures
            r.wf(),
            entry_models(r.rules@) == compiled(rules@),
            r.default_action == RouteAction::Proxy,
    {
        let mut set = RuleSet::new();
        let mut i: usize = 0;
        assert(rules@.take(0) =~= seq![]);
        while i < rules.len()
            invariant
                i <= rules@.len(),
                set.wf(),
                set.default_action == RouteAction::Proxy,
                entry_models(set.rules@) == compiled(rules@.take(i as int)),
            decreases rules@.len() - i,
        {
            let r = &rules[i];
            let ghost t = rules@.take(i + 1);
            assert(t.drop_last() =~= rules@.take(i as int));
            assert(t.last() == *r);
            if r.enabled {
                if let Some(rule) = condition_for(r.rule_type.as_str(), r.pattern.as_str()) {
                    set.add_rule(rule, action_for(r.target.as_str()));
                }
            }
            i = i + 1;
        }
        assert(rules@.take(i as int) =~= rules@);
        set
    }

    /// The rules, in order.
    pub fn rules(&self) -> (r: &[RuleEntry])
        ensures
            r@ == self.rules@,
    {
        self.rules.as_slice()
    }
}

/// Switching a rule off is the same as leaving it out.
pub proof fn law_disabled_rules_do_nothing(
    before: Seq<RoutingRule>,
    rule: RoutingRule,
    after: Seq<RoutingRule>,
)
    requires
        !rule.enabled,
    ensures
        compiled(before + seq![rule] + after) == compiled(before + after),
    decreases after.len(),
{
    let all = before + seq![rule] + after;
    if after.len() == 0 {
        assert(all.drop_last() =~= before);
        assert(all.last() == rule);
        assert(before + after =~= before);
    } else {
        law_disabled_rules_do_nothing(before, rule, after.drop_last());
        assert(all.drop_last() =~= before + seq![rule] + after.drop_last());
        assert((before + after).drop_last() =~= before + after.drop_last());
    }
}

// ---------------------------------------------------------------------------
// Matching
// ---------------------------------------------------------------------------

/// The condition holds of a target: its name in lower case, and its address
/// where it is known.
pub open spec fn holds(
    rule: RuleModel,
    geo: Option<geoip::GeoDbModel>,
    host: Seq<char>,
    ip: Option<IpAddr>,
) -> bool {
    match rule {
        RuleModel::Domain(d) => host == d,
        RuleModel::DomainSuffix(s) => text::has_suffix(host, s) || host == text::drop_start(
            s,
            |c: char| c == '.',
        ),
        RuleModel::DomainKeyword(k) => text::contains_text(host, k),
        RuleModel::IpCidr { addr, prefix_len } => ip is Some && in_network(
            ip->0,
            addr,
            prefix_len,
        ),
        RuleModel::GeoIp(country) => match (ip, geo) {
            (Some(a), Some(g)) => match geoip::country_of(g, a) {
                Some(cc) => text::same_ignoring_case(cc, country),
                None => false,
            },
            _ => false,
        },
        RuleModel::MatchAll => true,
    }
}

/// What is done with a target: the first rule that holds decides.
pub open spec fn verdict(
    rules: Seq<EntryModel>,
    default: RouteAction,
    geo: Option<geoip::GeoDbModel>,
    host: Seq<char>,
    ip: Option<IpAddr>,
) -> RouteAction
    decreases rules.len(),
{
    if rules.len() == 0 {
        default
    } else if holds(rules[0].rule, geo, host, ip) {
        rules[0].action
    } else {
        verdict(rules.drop_first(), default, geo, host, ip)
    }
}

/// The condition is one on the name.
pub open spec fn on_name(rule: RuleModel) -> bool {
    rule is Domain || rule is DomainSuffix || rule is DomainKeyword
}

/// The condition is one on the address.
pub open spec fn on_address(rule: RuleModel) -> bool {
    rule is IpCidr || rule is GeoIp
}

/// What the first rule on the name that holds decides.
pub open spec fn name_verdict(rules: Seq<EntryModel>, host: Seq<char>) -> Option<RouteAction>
    decreases rules.len(),
{
    if rules.len() == 0 {
        None
    } else if on_name(rules[0].rule) && holds(rules[0].rule, None, host, None) {
        Some(rules[0].action)
    } else {
        name_verdict(rules.drop_first(), host)
    }
}

/// A rule on the address is reached before any other rule decides.
pub open spec fn needs_address(rules: Seq<EntryModel>, host: Seq<char>) -> bool
    decreases rules.len(),
{
    if rules.len() == 0 {
        false
    } else if on_address(rules[0].rule) {
        true
    } else {
        !holds(rules[0].rule, None, host, None) && needs_address(rules.drop_first(), host)
    }
}

/// Where no rule on the address is reached, the address does not matter.
pub proof fn law_address_is_asked_for_only_where_it_matters(
    rules: Seq<EntryModel>,
    default: RouteAction,
    geo: Option<geoip::GeoDbModel>,
    host: Seq<char>,
    ip: Option<IpAddr>,
)
    requires
        !needs_address(rules, host),
    ensures
        verdict(rules, default, geo, host, ip) == verdict(rules, default, geo, host, None),
    decreases rules.len(),
{
    if rules.len() > 0 && !holds(rules[0].rule, None, host, None) {
        law_address_is_asked_for_only_where_it_matters(
            rules.drop_first(),
            default,
            geo,
            host,
            ip,
        );
    }
}

/// The first rule that holds decides, whatever stands behind it.
pub proof fn law_first_match_decides(
    before: Seq<EntryModel>,
    rule: EntryModel,
    after: Seq<EntryModel>,
    default: RouteAction,
    geo: Option<geoip::GeoDbModel>,
    host: Seq<char>,
    ip: Option<IpAddr>,
)
    requires
        forall|i: int| 0 <= i < before.len() ==> !holds((#[trigger] before[i]).rule, geo, host, ip),
        holds(rule.rule, geo, host, ip),
    ensures
        verdict(before + seq![rule] + after, default, geo, host, ip) == rule.action,
    decreases before.len(),
{
    let all = before + seq![rule] + after;
    if before.len() == 0 {
        assert(all[0] == rule);
    } else {
        assert(all[0] == before[0]);
        let t = before.drop_first();
        assert forall|i: int| 0 <= i < t.len() implies !holds((#[trigger] t[i]).rule, geo, host, ip) by {
            assert(t[i] == before[i + 1]);
        }
        law_first_match_decides(t, rule, after, default, geo, host, ip);
        assert(all.drop_first() =~= t + seq![rule] + after);
    }
}

// ---------------------------------------------------------------------------
// The cache of decisions
// ---------------------------------------------------------------------------

/// `lru::LruCache`.
#[verifier::external_type_specification]
#[verifier::external_body]
#[verifier::reject_recursive_types(K)]
#[verifier::reject_recursive_types(V)]
#[verifier::reject_recursive_types(S)]
pub struct ExLruCache<K, V, S>(lru::LruCache<K, V, S>);

/// `lru::DefaultHasher`.
#[verifier::external_type_specification]
#[verifier::external_body]
pub struct ExDefaultHasher(lru::DefaultHasher);

/// The entries of a cache, the one that was used last first.
pub uninterp spec fn cache_entries(cache: lru::LruCache<String, u8>) -> Seq<(Seq<char>, u8)>;

/// How many entries a cache holds at most.
pub uninterp spec fn cache_cap(cache: lru::LruCache<String, u8>) -> nat;

/// The position of a key among entries, or their number.
pub open spec fn key_index(entries: Seq<(Seq<char>, u8)>, key: Seq<char>) -> int
    decreases entries.len(),
{
    if entries.len() == 0 {
        0
    } else if entries[0].0 == key {
        0
    } else {
        1 + key_index(entries.drop_first(), key)
    }
}

/// The key is among the entries.
pub open spec fn has_key(entries: Seq<(Seq<char>, u8)>, key: Seq<char>) -> bool {
    key_index(entries, key) < entries.len()
}

/// The entries once a key was looked up: a key that is there comes first.
pub open spec fn promoted(entries: Seq<(Seq<char>, u8)>, key: Seq<char>) -> Seq<(Seq<char>, u8)> {
    let i = key_index(entries, key);
    if has_key(entries, key) {
        seq![entries[i]] + entries.remove(i)
    } else {
        entries
    }
}

/// The entries once a value was put: it comes first, in place of the one that
/// the key had, or else, where the cache is full, of the one that was used
/// longest ago.
pub open spec fn stored(
    entries: Seq<(Seq<char>, u8)>,
    cap: nat,
    key: Seq<char>,
    value: u8,
) -> Seq<(Seq<char>, u8)> {
    seq![(key, value)] + (if has_key(entries, key) {
        entries.remove(key_index(entries, key))
    } else if entries.len() < cap {
        entries
    } else {
        entries.drop_last()
    })
}

/// `lru::LruCache::new`: an empty cache with the given limit.
#[verifier::external_body]
pub(crate) fn new_cache(cap: usize) -> (r: lru::LruCache<String, u8>)
    requires
        cap > 0,
    ensures
        cache_entries(r) == Seq::<(Seq<char>, u8)>::empty(),
        cache_cap(r) == cap,
{
    lru::LruCache::new(std::num::NonZeroUsize::new(cap).unwrap())
}

/// `lru::LruCache::get`: the value of a key, which then comes first.
#[verifier::external_body]
pub(crate) fn cache_get(cache: &mut lru::LruCache<String, u8>, key: &str) -> (r: Option<u8>)
    ensures
        r is Some == has_key(cache_entries(*old(cache)), key@),
        r matches Some(v) ==> v == cache_entries(*old(cache))[key_index(
            cache_entries(*old(cache)),
            key@,
        )].1,
        cache_entries(*final(cache)) == promoted(cache_entries(*old(cache)), key@),
        cache_cap(*final(cache)) == cache_cap(*old(cache)),
{
    cache.get(key).copied()
}

/// `lru::LruCache::put`: the value of a key comes first; where the cache is
/// full and the key is new, the entry that was used longest ago goes.
#[verifier::external_body]
pub(crate) fn cache_put(cache: &mut lru::LruCache<String, u8>, key: &str, value: u8)
    ensures
        cache_entries(*final(cache)) == stored(
            cache_entries(*old(cache)),
            cache_cap(*old(cache)),
            key@,
            value,
        ),
        cache_cap(*final(cache)) == cache_cap(*old(cache)),
{
    cache.put(key.to_string(), value);
}

/// `lru::LruCache::peek`: the value of a key; nothing changes.
#[verifier::external_body]
pub(crate) fn cache_peek(cache: &lru::LruCache<String, u8>, key: &str) -> (r: Option<u8>)
    ensures
        r is Some == has_key(cache_entries(*cache), key@),
        r matches Some(v) ==> v == cache_entries(*cache)[key_index(cache_entries(*cache), key@)].1,
{
    cache.peek(key).copied()
}

/// `lru::LruCache::len`: the number of entries.
#[verifier::external_body]
pub(crate) fn cache_len(cache: &lru::LruCache<String, u8>) -> (r: usize)
    ensures
        r == cache_entries(*cache).len(),
{
    cache.len()
}

/// The number under which a decision is remembered.
pub open spec fn action_code(a: RouteAction) -> u8 {
    match a {
        RouteAction::Proxy => 0,
        RouteAction::Direct => 1,
        RouteAction::Reject => 2,
    }
}

/// The decision that a number stands for.
pub open spec fn code_action(code: u8) -> RouteAction {
    if code == 1 {
        RouteAction::Direct
    } else if code == 2 {
        RouteAction::Reject
    } else {
        RouteAction::Proxy
    }
}

fn encode(a: RouteAction) -> (r: u8)
    ensures
        r == action_code(a),
{
    match a {
        RouteAction::Proxy => 0,
        RouteAction::Direct => 1,
        RouteAction::Reject => 2,
    }
}

fn decode(code: u8) -> (r: RouteAction)
    ensures
        r == code_action(code),
{
    if code == 1 {
        RouteAction::Direct
    } else if code == 2 {
        RouteAction::Reject
    } else {
        RouteAction::Proxy
    }
}

// ---------------------------------------------------------------------------
// The router
// ---------------------------------------------------------------------------

/// Applies rules to targets, and remembers what it decided.
pub struct Router {
    pub rules: RuleSet,
    pub geoip: Option<Arc<GeoIpDb>>,
    /// The decisions, by the target's name in lower case.
    pub cache: lru::LruCache<String, u8>,
}

/// What a router holds.
#[verifier::ext_equal]
pub struct RouterModel {
    pub rules: Seq<EntryModel>,
    pub default_action: RouteAction,
    pub geo: Option<geoip::GeoDbModel>,
    pub cache: Seq<(Seq<char>, u8)>,
}

impl View for Router {
    type V = RouterModel;

    open spec fn view(&self) -> RouterModel {
        RouterModel {
            rules: entry_models(self.rules.rules@),
            default_action: self.rules.default_action,
            geo: match self.geoip {
                Some(g) => Some(g@),
                None => None,
            },
            cache: cache_entries(self.cache),
        }
    }
}

/// What the rules say of a target, given its address where it is known.
pub open spec fn ruling(m: RouterModel, host: Seq<char>, ip: Option<IpAddr>) -> RouteAction {
    verdict(m.rules, m.default_action, m.geo, text::folded(host), ip)
}

/// What is remembered of a target.
pub open spec fn remembered(m: RouterModel, host: Seq<char>) -> Option<RouteAction> {
    let key = text::folded(host);
    if has_key(m.cache, key) {
        Some(code_action(m.cache[key_index(m.cache, key)].1))
    } else {
        None
    }
}

/// The router once a target was looked up.
pub open spec fn consulted(m: RouterModel, host: Seq<char>) -> RouterModel {
    RouterModel { cache: promoted(m.cache, text::folded(host)), ..m }
}

/// The router once a decision was made.
pub open spec fn learnt(m: RouterModel, host: Seq<char>, a: RouteAction) -> RouterModel {
    RouterModel {
        cache: stored(m.cache, ROUTE_CACHE_CAP as nat, text::folded(host), action_code(a)),
        ..m
    }
}

/// What is to be done for a target whose address is not known.
#[derive(Debug)]
pub enum RouteStep {
    /// It is decided.
    Decided(RouteAction),
    /// This name has to be resolved first.
    Resolve(String),
}

impl Router {
    /// The rules are sound and the cache has its limit.
    pub open spec fn wf(self) -> bool {
        &&& self.rules.wf()
        &&& cache_cap(self.cache) == ROUTE_CACHE_CAP
    }

    /// A router that remembers nothing.
    pub fn new(rules: RuleSet) -> (r: Self)
        requires
            rules.wf(),
        ensures
            r.wf(),
            r@ == (RouterModel {
                rules: entry_models(rules.rules@),
                default_action: rules.default_action,
                geo: None,
                cache: seq![],
            }),
    {
        let r = Router { rules, geoip: None, cache: new_cache(ROUTE_CACHE_CAP) };
        assert(r@.cache =~= seq![]);
        r
    }

    /// The router with a database of countries.
    pub fn with_geoip(self, geoip: Arc<GeoIpDb>) -> (r: Self)
        requires
            self.wf(),
        ensures
            r.wf(),
            r@ == (RouterModel { geo: Some(geoip@), ..self@ }),
    {
        Router { rules: self.rules, geoip: Some(geoip), cache: self.cache }
    }

    fn rule_matches(&self, rule: &MatchRule, host_lower: &[char], ip: Option<IpAddr>) -> (r: bool)
        requires
            rule_is_sound(rule@),
        ensures
            r == holds(rule@, self@.geo, host_lower@, ip),
    {
        match rule {
            MatchRule::Domain(domain) => {
                let d = text::chars_of(domain.as_str());
                text::chars_eq(host_lower, d.as_slice())
            },
            MatchRule::DomainSuffix(suffix) => {
                let s = text::chars_of(suffix.as_str());
                let bare = text::trim_start_char(s.as_slice(), '.');
                text::ends_with(host_lower, s.as_slice()) || text::chars_eq(host_lower, bare)
            },
            MatchRule::DomainKeyword(keyword) => text::contains_str(host_lower, keyword.as_str()),
            MatchRule::IpCidr { addr, prefix_len } => {
                match ip {
                    Some(a) => cidr_match(a, *addr, *prefix_len),
                    None => false,
                }
            },
            MatchRule::GeoIp(country) => {
                match (ip, &self.geoip) {
                    (Some(a), Some(g)) => {
                        match g.lookup(a) {
                            Some(cc) => text::eq_ignore_case_str(
                                text::chars_of(cc).as_slice(),
                                country.as_str(),
                            ),
                            None => false,
                        }
                    },
                    _ => false,
                }
            },
            MatchRule::MatchAll => true,
        }
    }

    fn first_match(&self, host_lower: &[char], ip: Option<IpAddr>) -> (r: RouteAction)
        requires
            self.wf(),
        ensures
            r == verdict(self@.rules, self@.default_action, self@.geo, host_lower@, ip),
    {
        let ghost all = self@.rules;
        let mut i: usize = 0;
        assert(all.skip(0) =~= all);
        while i < self.rules.rules.len()
            invariant
                self.wf(),
                i <= self.rules.rules@.len(),
                all == self@.rules,
                verdict(all, self@.default_action, self@.geo, host_lower@, ip) == verdict(
                    all.skip(i as int),
                    self@.default_action,
                    self@.geo,
                    host_lower@,
                    ip,
                ),
            decreases self.rules.rules@.len() - i,
        {
            let entry = &self.rules.rules[i];
            assert(all.skip(i as int)[0] == entry@);
            assert(rule_is_sound(self.rules.rules@[i as int].rule@));
            if self.rule_matches(&entry.rule, host_lower, ip) {
                return entry.action;
            }
            assert(all.skip(i as int).drop_first() =~= all.skip(i + 1));
            i = i + 1;
        }
        self.rules.default_action
    }

    /// What the rules say of a target, a name or an address, without the
    /// cache. No name is resolved.
    pub fn route_uncached(&self, host: &str, _port: u16) -> (r: RouteAction)
        requires
            self.wf(),
        ensures
            r == ruling(self@, host@, net::ip_of(host@)),
    {
        let lower = text::fold(host);
        self.first_match(text::chars_of(lower.as_str()).as_slice(), net::parse_ip(host))
    }

    /// What is done with a target: what is remembered, or else what the rules
    /// say, which is then remembered. No name is resolved.
    pub fn route(&mut self, host: &str, port: u16) -> (r: RouteAction)
        requires
            old(self).wf(),
        ensures
            final(self).wf(),
            r == answer_of(old(self)@, host@),
            final(self)@ == routed(old(self)@, host@),
    {
        let key = text::fold(host);
        if let Some(code) = cache_get(&mut self.cache, key.as_str()) {
            return decode(code);
        }
        let action = self.route_uncached(host, port);
        cache_put(&mut self.cache, key.as_str(), encode(action));
        action
    }

    /// What the first rule on the name that holds decides; nothing where none
    /// of them holds, whatever the other rules say.
    pub fn route_domain_only(&self, host: &str) -> (r: Option<RouteAction>)
        requires
            self.wf(),
        ensures
            r == name_verdict(self@.rules, text::folded(host@)),
    {
        let lower = text::chars_of(text::fold(host).as_str());
        let ghost all = self@.rules;
        let mut i: usize = 0;
        assert(all.skip(0) =~= all);
        while i < self.rules.rules.len()
            invariant
                self.wf(),
                i <= self.rules.rules@.len(),
                all == self@.rules,
                lower@ == text::folded(host@),
                name_verdict(all, lower@) == name_verdict(all.skip(i as int), lower@),
            decreases self.rules.rules@.len() - i,
        {
            let entry = &self.rules.rules[i];
            assert(all.skip(i as int)[0] == entry@);
            assert(rule_is_sound(self.rules.rules@[i as int].rule@));
            let named = match &entry.rule {
                MatchRule::Domain(_) => true,
                MatchRule::DomainSuffix(_) => true,
                MatchRule::DomainKeyword(_) => true,
                _ => false,
            };
            if named && self.rule_matches(&entry.rule, lower.as_slice(), None) {
                return Some(entry.action);
            }
            assert(all.skip(i as int).drop_first() =~= all.skip(i + 1));
            i = i + 1;
        }
        None
    }

    fn reaches_address_rule(&self, host_lower: &[char]) -> (r: bool)
        requires
            self.wf(),
        ensures
            r == needs_address(self@.rules, host_lower@),
    {
        let ghost all = self@.rules;
        let mut i: usize = 0;
        assert(all.skip(0) =~= all);
        while i < self.rules.rules.len()
            invariant
                self.wf(),
                i <= self.rules.rules@.len(),
                all == self@.rules,
                needs_address(all, host_lower@) == needs_address(all.skip(i as int), host_lower@),
            decreases self.rules.rules@.len() - i,
        {
            let entry = &self.rules.rules[i];
            assert(all.skip(i as int)[0] == entry@);
            assert(rule_is_sound(self.rules.rules@[i as int].rule@));
            let addressed = match &entry.rule {
                MatchRule::IpCidr { addr: _, prefix_len: _ } => true,
                MatchRule::GeoIp(_) => true,
                _ => false,
            };
            if addressed {
                return true;
            }
            if self.rule_matches(&entry.rule, host_lower, None) {
                return false;
            }
            assert(all.skip(i as int).drop_first() =~= all.skip(i + 1));
            i = i + 1;
        }
        false
    }

    /// What is done with a target whose name may have to be resolved: what is
    /// remembered, or what the rules say. Only where a rule on the address is
    /// reached does a name have to be resolved first.
    pub fn route_resolving(&mut self, host: &str, port: u16) -> (r: RouteStep)
        requires
            old(self).wf(),
        ensures
            final(self).wf(),
            is_route_step(old(self)@, host@, r, final(self)@),
    {
        let key = text::fold(host);
        if let Some(code) = cache_get(&mut self.cache, key.as_str()) {
            return RouteStep::Decided(decode(code));
        }
        let lower = text::chars_of(key.as_str());
        if net::parse_ip(host).is_none() && self.reaches_address_rule(lower.as_slice()) {
            return RouteStep::Resolve(key);
        }
        let action = self.route_uncached(host, port);
        cache_put(&mut self.cache, key.as_str(), encode(action));
        RouteStep::Decided(action)
    }

    /// What is done with a name that was resolved, or could not be; it is
    /// then remembered.
    pub fn route_resolved(&mut self, host: &str, ip: Option<IpAddr>) -> (r: RouteAction)
        requires
            old(self).wf(),
        ensures
            final(self).wf(),
            r == ruling(old(self)@, host@, ip),
            final(self)@ == learnt(old(self)@, host@, r),
    {
        let key = text::fold(host);
        let action = self.first_match(text::chars_of(key.as_str()).as_slice(), ip);
        cache_put(&mut self.cache, key.as_str(), encode(action));
        action
    }

    /// What is remembered of a target; nothing changes.
    pub fn cached(&self, key: &str) -> (r: Option<RouteAction>)
        requires
            self.wf(),
        ensures
            r == (if has_key(self@.cache, key@) {
                Some(code_action(self@.cache[key_index(self@.cache, key@)].1))
            } else {
                None
            }),
    {
        match cache_peek(&self.cache, key) {
            Some(code) => Some(decode(code)),
            None => None,
        }
    }

    /// How many decisions are remembered.
    pub fn cached_len(&self) -> (r: usize)
        ensures
            r == self@.cache.len(),
    {
        cache_len(&self.cache)
    }
}

/// The address that stands for a name: its first IPv4 address, or else its
/// first address.
pub open spec fn chosen_address(addrs: Seq<SocketAddr>) -> Option<IpAddr> {
    let v4 = addrs.filter(|a: SocketAddr| a.ip is V4);
    if v4.len() > 0 {
        Some(v4[0].ip)
    } else if addrs.len() > 0 {
        Some(addrs[0].ip)
    } else {
        None
    }
}

/// The address that stands for a name.
pub fn choose_address(addrs: &[SocketAddr]) -> (r: Option<IpAddr>)
    ensures
        r == chosen_address(addrs@),
{
    let ghost keep = |a: SocketAddr| a.ip is V4;
    let mut i: usize = 0;
    assert(addrs@.take(0).filter(keep) =~= seq![]) by {
        reveal(Seq::filter);
    }
    while i < addrs.len()
        invariant
            i <= addrs@.len(),
            keep == (|a: SocketAddr| a.ip is V4),
            addrs@.take(i as int).filter(keep) == Seq::<SocketAddr>::empty(),
        decreases addrs@.len() - i,
    {
        proof {
            reveal(Seq::filter);
            assert(addrs@.take(i + 1).drop_last() =~= addrs@.take(i as int));
        }
        if let IpAddr::V4(_) = addrs[i].ip {
            proof {
                let head = addrs@.take(i + 1);
                let tail = addrs@.skip(i + 1);
                assert(head + tail =~= addrs@);
                Seq::filter_distributes_over_add(head, tail, keep);
                assert(head.filter(keep) =~= seq![addrs@[i as int]]);
                assert(addrs@.filter(keep)[0] == addrs@[i as int]);
            }
            return Some(addrs[i].ip);
        }
        i = i + 1;
    }
    assert(addrs@.take(i as int) =~= addrs@);
    if addrs.len() > 0 {
        Some(addrs[0].ip)
    } else {
        None
    }
}

// ---------------------------------------------------------------------------
// Laws of the router
// ---------------------------------------------------------------------------

proof fn lemma_stored_is_first(entries: Seq<(Seq<char>, u8)>, cap: nat, key: Seq<char>, value: u8)
    ensures
        stored(entries, cap, key, value)[0] == (key, value),
        has_key(stored(entries, cap, key, value), key),
        key_index(stored(entries, cap, key, value), key) == 0,
{
}

/// What was decided is what is said of the target from then on, however its
/// name is written.
pub proof fn law_decisions_are_remembered(
    m: RouterModel,
    host: Seq<char>,
    variant: Seq<char>,
    a: RouteAction,
)
    requires
        text::folded(variant) == text::folded(host),
    ensures
        remembered(learnt(m, host, a), variant) == Some(a),
{
    lemma_stored_is_first(m.cache, ROUTE_CACHE_CAP as nat, text::folded(host), action_code(a));
}

/// Names that differ in the case of ASCII letters share one entry.
pub proof fn law_case_variants_share_an_entry(host: Seq<char>, variant: Seq<char>)
    requires
        vstd::utf8::is_ascii_chars(host),
        vstd::utf8::is_ascii_chars(variant),
        text::same_ignoring_case(host, variant),
    ensures
        text::folded(host) == text::folded(variant),
{
}

proof fn lemma_key_index_bound(entries: Seq<(Seq<char>, u8)>, key: Seq<char>)
    ensures
        0 <= key_index(entries, key) <= entries.len(),
    decreases entries.len(),
{
    if entries.len() > 0 && entries[0].0 != key {
        lemma_key_index_bound(entries.drop_first(), key);
    }
}

/// The cache never grows beyond its limit.
pub proof fn law_cache_is_bounded(m: RouterModel, host: Seq<char>, a: RouteAction)
    requires
        m.cache.len() <= ROUTE_CACHE_CAP,
    ensures
        learnt(m, host, a).cache.len() <= ROUTE_CACHE_CAP,
        consulted(m, host).cache.len() == m.cache.len(),
{
    lemma_key_index_bound(m.cache, text::folded(host));
}

/// What `route` answers.
pub open spec fn answer_of(m: RouterModel, host: Seq<char>) -> RouteAction {
    match remembered(m, host) {
        Some(a) => a,
        None => ruling(m, host, net::ip_of(host)),
    }
}

/// The router after `route`.
pub open spec fn routed(m: RouterModel, host: Seq<char>) -> RouterModel {
    match remembered(m, host) {
        Some(_) => consulted(m, host),
        None => learnt(m, host, answer_of(m, host)),
    }
}

/// The router after `route` was called for targets, one after the other.
pub open spec fn all_routed(m: RouterModel, hosts: Seq<Seq<char>>) -> RouterModel
    decreases hosts.len(),
{
    if hosts.len() == 0 {
        m
    } else {
        routed(all_routed(m, hosts.drop_last()), hosts.last())
    }
}

/// An address shares no entry with a target outside ASCII.
proof fn lemma_address_stays_apart(a: Seq<char>, b: Seq<char>)
    requires
        net::ip_of(a) is Some,
        !vstd::utf8::is_ascii_chars(b),
    ensures
        text::folded(a) != text::folded(b),
{
    net::lemma_ip_of_address(a);
    assert(vstd::utf8::is_ascii_chars(a));
    text::lemma_folded_shows_outside(b);
    if text::folded(a) == text::folded(b) {
        let low = text::folded(a);
        let i = choose|i: int|
            0 <= i < low.len() && (#[trigger] low[i] > '\u{7f}' || low[i] == 'k');
        assert(low[i] == text::ascii_lower(a[i]));
        assert(net::in_address(a[i]));
    }
}

/// Targets that share an entry are the same address, or both names.
pub proof fn law_entry_is_one_target(a: Seq<char>, b: Seq<char>)
    requires
        text::folded(a) == text::folded(b),
    ensures
        net::ip_of(a) == net::ip_of(b),
{
    net::lemma_case_ip(a);
    net::lemma_case_ip(b);
    if net::ip_of(a) is Some {
        if !vstd::utf8::is_ascii_chars(b) {
            lemma_address_stays_apart(a, b);
        }
        net::lemma_ip_of_address(a);
    }
    if net::ip_of(b) is Some {
        if !vstd::utf8::is_ascii_chars(a) {
            lemma_address_stays_apart(b, a);
        }
        net::lemma_ip_of_address(b);
    }
}

/// The entry of a key, if there is one, holds the number.
spec fn holds_only(entries: Seq<(Seq<char>, u8)>, key: Seq<char>, code: u8) -> bool {
    has_key(entries, key) ==> entries[key_index(entries, key)].1 == code
}

proof fn lemma_key_at(entries: Seq<(Seq<char>, u8)>, key: Seq<char>)
    ensures
        0 <= key_index(entries, key) <= entries.len(),
        has_key(entries, key) ==> entries[key_index(entries, key)].0 == key,
    decreases entries.len(),
{
    if entries.len() > 0 && entries[0].0 != key {
        lemma_key_at(entries.drop_first(), key);
    }
}

proof fn lemma_other_removed(entries: Seq<(Seq<char>, u8)>, i: int, key: Seq<char>, code: u8)
    requires
        0 <= i < entries.len(),
        entries[i].0 != key,
        holds_only(entries, key, code),
    ensures
        holds_only(entries.remove(i), key, code),
    decreases entries.len(),
{
    let t = entries.remove(i);
    let d = entries.drop_first();
    lemma_key_at(d, key);
    if i == 0 {
        assert(t =~= d);
    } else {
        assert(t[0] == entries[0]);
        if entries[0].0 != key {
            assert(holds_only(d, key, code));
            assert(d[i - 1] == entries[i]);
            lemma_other_removed(d, i - 1, key, code);
            assert(t.drop_first() =~= d.remove(i - 1));
            lemma_key_at(t.drop_first(), key);
        }
    }
}

proof fn lemma_last_dropped(entries: Seq<(Seq<char>, u8)>, key: Seq<char>, code: u8)
    requires
        entries.len() > 0,
        holds_only(entries, key, code),
    ensures
        holds_only(entries.drop_last(), key, code),
    decreases entries.len(),
{
    let t = entries.drop_last();
    let d = entries.drop_first();
    if t.len() > 0 {
        assert(t[0] == entries[0]);
        if entries[0].0 != key {
            lemma_key_at(d, key);
            lemma_last_dropped(d, key, code);
            assert(t.drop_first() =~= d.drop_last());
            lemma_key_at(t.drop_first(), key);
        }
    }
}

proof fn lemma_in_front(entries: Seq<(Seq<char>, u8)>, e: (Seq<char>, u8), key: Seq<char>, code: u8)
    requires
        if e.0 == key {
            e.1 == code
        } else {
            holds_only(entries, key, code)
        },
    ensures
        holds_only(seq![e] + entries, key, code),
{
    let t = seq![e] + entries;
    assert(t[0] == e);
    assert(t.drop_first() =~= entries);
    lemma_key_at(entries, key);
}

proof fn lemma_routed_keeps(m: RouterModel, other: Seq<char>, host: Seq<char>, code: u8)
    requires
        holds_only(m.cache, text::folded(host), code),
        text::folded(other) == text::folded(host) ==> action_code(
            ruling(m, other, net::ip_of(other)),
        ) == code,
    ensures
        holds_only(routed(m, other).cache, text::folded(host), code),
{
    let key = text::folded(host);
    let k = text::folded(other);
    let i = key_index(m.cache, k);
    lemma_key_at(m.cache, k);
    if has_key(m.cache, k) {
        if k != key {
            lemma_other_removed(m.cache, i, key, code);
        }
        lemma_in_front(m.cache.remove(i), m.cache[i], key, code);
    } else {
        if m.cache.len() >= ROUTE_CACHE_CAP {
            lemma_last_dropped(m.cache, key, code);
            lemma_in_front(
                m.cache.drop_last(),
                (k, action_code(answer_of(m, other))),
                key,
                code,
            );
        } else {
            lemma_in_front(m.cache, (k, action_code(answer_of(m, other))), key, code);
        }
    }
}

proof fn lemma_all_routed(m: RouterModel, hosts: Seq<Seq<char>>, host: Seq<char>)
    requires
        m.cache.len() == 0,
    ensures
        all_routed(m, hosts).rules == m.rules,
        all_routed(m, hosts).default_action == m.default_action,
        all_routed(m, hosts).geo == m.geo,
        holds_only(
            all_routed(m, hosts).cache,
            text::folded(host),
            action_code(ruling(m, host, net::ip_of(host))),
        ),
    decreases hosts.len(),
{
    if hosts.len() > 0 {
        lemma_all_routed(m, hosts.drop_last(), host);
        if text::folded(hosts.last()) == text::folded(host) {
            law_entry_is_one_target(hosts.last(), host);
        }
        lemma_routed_keeps(
            all_routed(m, hosts.drop_last()),
            hosts.last(),
            host,
            action_code(ruling(m, host, net::ip_of(host))),
        );
    }
}

/// What was routed before does not change an answer: a router that began with
/// nothing remembered says of a target what the rules say of it, whatever the
/// targets.
pub proof fn law_answers_do_not_depend_on_the_past(
    m: RouterModel,
    hosts: Seq<Seq<char>>,
    host: Seq<char>,
)
    requires
        m.cache.len() == 0,
    ensures
        answer_of(all_routed(m, hosts), host) == ruling(m, host, net::ip_of(host)),
{
    lemma_all_routed(m, hosts, host);
}

// ---------------------------------------------------------------------------
// What rules are for
// ---------------------------------------------------------------------------

/// What is decided for a target where one rule is configured, nothing is
/// remembered, and the address is known only where the target is one.
pub open spec fn decided_by(
    rule: RoutingRule,
    default: RouteAction,
    geo: Option<geoip::GeoDbModel>,
    host: Seq<char>,
) -> RouteAction {
    answer_of(
        RouterModel { rules: compiled(seq![rule]), default_action: default, geo, cache: seq![] },
        host,
    )
}

/// The text in lower case is this one.
pub open spec fn reads(s: Seq<char>, lower: Seq<char>) -> bool {
    text::folded(s) == lower
}

proof fn lemma_one_rule(
    rule: RoutingRule,
    default: RouteAction,
    geo: Option<geoip::GeoDbModel>,
    host: Seq<char>,
)
    ensures
        decided_by(rule, default, geo, host) == (match condition_of(rule.rule_type@, rule.pattern@) {
            Some(c) => if rule.enabled && holds(c, geo, text::folded(host), net::ip_of(host)) {
                action_named(rule.target@)
            } else {
                default
            },
            None => default,
        }),
{
    let rules = seq![rule];
    assert(rules.drop_last() =~= seq![]);
    assert(compiled(rules.drop_last()) =~= seq![]);
    let c = compiled(rules);
    reveal_with_fuel(verdict, 2);
    if c.len() > 0 {
        assert(c.drop_first() =~= seq![]);
    }
    reveal_with_fuel(key_index, 1);
}

proof fn lemma_rule_words()
    ensures
        "domain"@ != "domain-suffix"@,
        "domain"@ != "domain-keyword"@,
        "domain-suffix"@ != "domain-keyword"@,
        "ip-cidr"@ != "domain"@,
        "ip-cidr"@ != "domain-suffix"@,
        "ip-cidr"@ != "domain-keyword"@,
        "geoip"@ != "domain"@,
        "geoip"@ != "domain-suffix"@,
        "geoip"@ != "domain-keyword"@,
        "geoip"@ != "ip-cidr"@,
        "match"@ != "domain"@,
        "match"@ != "domain-suffix"@,
        "match"@ != "domain-keyword"@,
        "match"@ != "ip-cidr"@,
        "match"@ != "geoip"@,
        "final"@ != "domain"@,
        "final"@ != "domain-suffix"@,
        "final"@ != "domain-keyword"@,
        "final"@ != "ip-cidr"@,
        "final"@ != "geoip"@,
        "direct"@ != "reject"@,
        "direct"@ != "block"@,
{
    reveal_strlit("domain");
    reveal_strlit("domain-suffix");
    reveal_strlit("domain-keyword");
    reveal_strlit("ip-cidr");
    reveal_strlit("geoip");
    reveal_strlit("match");
    reveal_strlit("final");
    reveal_strlit("direct");
    reveal_strlit("reject");
    reveal_strlit("block");
    assert("domain"@.len() == 6);
    assert("domain-suffix"@.len() == 13);
    assert("domain-keyword"@.len() == 14);
    assert("ip-cidr"@.len() == 7);
    assert("geoip"@[0] == 'g');
    assert("match"@[0] == 'm');
    assert("final"@[0] == 'f');
    assert("direct"@[0] == 'd');
    assert("reject"@[0] == 'r');
    assert("block"@[0] == 'b');
}

/// The host is this one, or lies below it: it ends in a dot and this one.
pub open spec fn is_or_lies_below(host: Seq<char>, domain: Seq<char>) -> bool {
    host == domain || exists|below: Seq<char>| host == #[trigger] (below + seq!['.'] + domain)
}

/// The action that a target names: `direct`, `reject` or `block`, or anything
/// else, in any case of letters.
pub open spec fn is_action(target: Seq<char>, a: RouteAction) -> bool {
    match a {
        RouteAction::Direct => reads(target, "direct"@),
        RouteAction::Reject => reads(target, "reject"@) || reads(target, "block"@),
        RouteAction::Proxy => !reads(target, "direct"@) && !reads(target, "reject"@) && !reads(
            target,
            "block"@,
        ),
    }
}

proof fn lemma_suffix(s: Seq<char>, host: Seq<char>, domain: Seq<char>)
    requires
        s == seq!['.'] + domain,
        domain.len() > 0 ==> domain[0] != '.',
    ensures
        (text::has_suffix(host, s) || host == text::drop_start(s, |c: char| c == '.'))
            == is_or_lies_below(host, domain),
{
    let f = |c: char| c == '.';
    assert(s.drop_first() =~= domain);
    reveal_with_fuel(text::drop_start, 3);
    assert(text::drop_start(s, f) == domain);
    if text::has_suffix(host, s) {
        let below = host.take(host.len() - s.len());
        assert(host =~= below + seq!['.'] + domain);
    }
    if exists|below: Seq<char>| host == #[trigger] (below + seq!['.'] + domain) {
        let below = choose|below: Seq<char>| host == #[trigger] (below + seq!['.'] + domain);
        assert(host.skip(host.len() - s.len()) =~= s);
    }
}

/// A rule on the end of names decides for the domain itself and for every host
/// below it, in any case of letters, and for no other host; with or without
/// the dot before its pattern.
pub proof fn law_suffix_rule_covers_a_domain(
    rule: RoutingRule,
    domain: Seq<char>,
    default: RouteAction,
    geo: Option<geoip::GeoDbModel>,
    host: Seq<char>,
    a: RouteAction,
)
    requires
        rule.enabled,
        reads(rule.rule_type@, "domain-suffix"@),
        reads(rule.pattern@, domain) || reads(rule.pattern@, seq!['.'] + domain),
        domain.len() > 0 ==> domain[0] != '.',
        is_action(rule.target@, a),
    ensures
        decided_by(rule, default, geo, host) == (if is_or_lies_below(text::folded(host), domain) {
            a
        } else {
            default
        }),
{
    lemma_rule_words();
    lemma_one_rule(rule, default, geo, host);
    lemma_suffix(seq!['.'] + domain, text::folded(host), domain);
    let dotted = seq!['.'] + domain;
    assert(dotted[0] == '.');
}

/// The same in ASCII, where lower case is known: a pattern that does not begin
/// with a dot covers the hosts that are it, or end in a dot and it, whatever
/// the case of their letters.
pub proof fn law_suffix_rule_ignores_case(
    rule: RoutingRule,
    default: RouteAction,
    geo: Option<geoip::GeoDbModel>,
    below: Seq<char>,
    domain: Seq<char>,
    a: RouteAction,
)
    requires
        rule.enabled,
        reads(rule.rule_type@, "domain-suffix"@),
        vstd::utf8::is_ascii_chars(rule.pattern@),
        vstd::utf8::is_ascii_chars(below),
        vstd::utf8::is_ascii_chars(domain),
        text::same_ignoring_case(domain, rule.pattern@),
        rule.pattern@.len() > 0,
        rule.pattern@[0] != '.',
        is_action(rule.target@, a),
    ensures
        decided_by(rule, default, geo, domain) == a,
        decided_by(rule, default, geo, below + seq!['.'] + domain) == a,
{
    let p = text::folded(rule.pattern@);
    assert(p[0] == text::ascii_lower(rule.pattern@[0]));
    law_suffix_rule_covers_a_domain(rule, p, default, geo, domain, a);
    let host = below + seq!['.'] + domain;
    law_suffix_rule_covers_a_domain(rule, p, default, geo, host, a);
    assert(vstd::utf8::is_ascii_chars(host)) by {
        assert forall|k: int| 0 <= k < host.len() implies '\0' <= #[trigger] host[k]
            <= '\u{7f}' by {
            if k < below.len() {
                assert(host[k] == below[k]);
            } else if k > below.len() {
                assert(host[k] == domain[k - below.len() - 1]);
            }
        }
    }
    assert(text::folded(host) =~= text::ascii_lowercase(below) + seq!['.'] + p);
}

/// A rule on a name decides for that name, in any case of letters, and for no
/// other host.
pub proof fn law_name_rule_covers_a_name(
    rule: RoutingRule,
    default: RouteAction,
    geo: Option<geoip::GeoDbModel>,
    host: Seq<char>,
    a: RouteAction,
)
    requires
        rule.enabled,
        reads(rule.rule_type@, "domain"@),
        is_action(rule.target@, a),
    ensures
        decided_by(rule, default, geo, host) == (if text::folded(host) == text::folded(
            rule.pattern@,
        ) {
            a
        } else {
            default
        }),
{
    lemma_rule_words();
    lemma_one_rule(rule, default, geo, host);
}

/// A rule on a part of names decides for the hosts that have the part anywhere
/// in them, and for no other host.
pub proof fn law_keyword_rule_covers_a_part(
    rule: RoutingRule,
    default: RouteAction,
    geo: Option<geoip::GeoDbModel>,
    host: Seq<char>,
    a: RouteAction,
)
    requires
        rule.enabled,
        reads(rule.rule_type@, "domain-keyword"@),
        is_action(rule.target@, a),
    ensures
        ({
            let part = text::folded(rule.pattern@);
            decided_by(rule, default, geo, host) == (if exists|x: Seq<char>, y: Seq<char>|
                text::folded(host) == #[trigger] (x + part + y) {
                a
            } else {
                default
            })
        }),
{
    lemma_rule_words();
    lemma_one_rule(rule, default, geo, host);
    let part = text::folded(rule.pattern@);
    let h = text::folded(host);
    if text::contains_text(h, part) {
        let i = choose|i: int| text::occurs_at(h, part, i);
        assert(h =~= h.take(i) + part + h.skip(i + part.len()));
    }
    if exists|x: Seq<char>, y: Seq<char>| h == #[trigger] (x + part + y) {
        let (x, y) = choose|x: Seq<char>, y: Seq<char>| h == #[trigger] (x + part + y);
        assert(h.subrange(x.len() as int, (x.len() + part.len()) as int) =~= part);
        assert(text::occurs_at(h, part, x.len() as int));
    }
}

/// The addresses of a network: the family of its address, and the same number
/// once the bits behind the prefix are cut off.
pub open spec fn is_in(ip: IpAddr, network: IpAddr, prefix_len: int) -> bool {
    match (ip, network) {
        (IpAddr::V4(a), IpAddr::V4(b)) => a as int / vstd::arithmetic::power2::pow2(
            (32 - prefix_len) as nat,
        ) as int == b as int / vstd::arithmetic::power2::pow2((32 - prefix_len) as nat) as int,
        (IpAddr::V6(a), IpAddr::V6(b)) => a as int / vstd::arithmetic::power2::pow2(
            (128 - prefix_len) as nat,
        ) as int == b as int / vstd::arithmetic::power2::pow2((128 - prefix_len) as nat) as int,
        _ => false,
    }
}

proof fn lemma_prefix(a: u128, b: u128, drop: u32)
    requires
        drop <= 128,
    ensures
        geoip::same_prefix(a, b, drop) == (a as int / vstd::arithmetic::power2::pow2(
            drop as nat,
        ) as int == b as int / vstd::arithmetic::power2::pow2(drop as nat) as int),
{
    vstd::arithmetic::power2::lemma_pow2_pos(drop as nat);
    if drop < 128 {
        vstd::bits::lemma_u128_shr_is_div(a, drop as u128);
        vstd::bits::lemma_u128_shr_is_div(b, drop as u128);
        assert(a >> drop == a >> (drop as u128)) by (bit_vector)
            requires
                drop < 128,
        ;
        assert(b >> drop == b >> (drop as u128)) by (bit_vector)
            requires
                drop < 128,
        ;
    } else {
        vstd::arithmetic::power2::lemma2_to64();
        vstd::arithmetic::power2::lemma_pow2_adds(64, 64);
        let p = vstd::arithmetic::power2::pow2(128) as int;
        assert(p == 0x1_0000_0000_0000_0000 * 0x1_0000_0000_0000_0000);
        assert(a < p && b < p);
        vstd::arithmetic::div_mod::lemma_basic_div(a as int, p);
        vstd::arithmetic::div_mod::lemma_basic_div(b as int, p);
    }
}

/// An address lies in a network where it is of its family and has its first
/// bits.
pub proof fn law_network_is_a_range(ip: IpAddr, network: IpAddr, prefix_len: u8)
    requires
        prefix_fits(network, prefix_len),
    ensures
        in_network(ip, network, prefix_len) == is_in(ip, network, prefix_len as int),
{
    match (ip, network) {
        (IpAddr::V4(a), IpAddr::V4(b)) => {
            lemma_prefix(a as u128, b as u128, (32 - prefix_len) as u32);
        },
        (IpAddr::V6(a), IpAddr::V6(b)) => {
            lemma_prefix(a, b, (128 - prefix_len) as u32);
        },
        _ => {},
    }
}

/// A rule on a network, an address, a slash and the length of its prefix,
/// decides for the addresses in it, and for no other host.
pub proof fn law_network_rule_covers_its_addresses(
    rule: RoutingRule,
    network: IpAddr,
    prefix_len: u8,
    default: RouteAction,
    geo: Option<geoip::GeoDbModel>,
    host: Seq<char>,
    a: RouteAction,
)
    requires
        rule.enabled,
        reads(rule.rule_type@, "ip-cidr"@),
        rule.pattern@ == net::ip_text(network) + seq!['/'] + text::decimal(prefix_len as nat),
        prefix_fits(network, prefix_len),
        is_action(rule.target@, a),
    ensures
        decided_by(rule, default, geo, host) == (if net::ip_of(host) matches Some(ip) && is_in(
            ip,
            network,
            prefix_len as int,
        ) {
            a
        } else {
            default
        }),
{
    lemma_rule_words();
    lemma_one_rule(rule, default, geo, host);
    geoip::lemma_range_text(network, prefix_len);
    if net::ip_of(host) is Some {
        law_network_is_a_range(net::ip_of(host)->0, network, prefix_len);
    }
}

/// A rule on a country decides for the addresses that the database puts there,
/// in any case of letters, and for no other host; without a database it
/// decides for none.
pub proof fn law_country_rule_covers_its_addresses(
    rule: RoutingRule,
    default: RouteAction,
    geo: Option<geoip::GeoDbModel>,
    host: Seq<char>,
    a: RouteAction,
)
    requires
        rule.enabled,
        reads(rule.rule_type@, "geoip"@),
        is_action(rule.target@, a),
    ensures
        decided_by(rule, default, geo, host) == (if geo is Some && net::ip_of(host) is Some
            && geoip::country_of(geo->0, net::ip_of(host)->0) is Some && text::same_ignoring_case(
            geoip::country_of(geo->0, net::ip_of(host)->0)->0,
            text::raised(rule.pattern@),
        ) {
            a
        } else {
            default
        }),
{
    lemma_rule_words();
    lemma_one_rule(rule, default, geo, host);
}

/// A rule for all targets decides for every host.
pub proof fn law_final_rule_covers_everything(
    rule: RoutingRule,
    default: RouteAction,
    geo: Option<geoip::GeoDbModel>,
    host: Seq<char>,
    a: RouteAction,
)
    requires
        rule.enabled,
        reads(rule.rule_type@, "match"@) || reads(rule.rule_type@, "final"@),
        is_action(rule.target@, a),
    ensures
        decided_by(rule, default, geo, host) == a,
{
    lemma_rule_words();
    lemma_one_rule(rule, default, geo, host);
}

/// A rule that is switched off, or of no known type, or on no network, decides
/// for no host.
pub proof fn law_other_rules_decide_nothing(
    rule: RoutingRule,
    default: RouteAction,
    geo: Option<geoip::GeoDbModel>,
    host: Seq<char>,
)
    requires
        !rule.enabled || (!reads(rule.rule_type@, "domain"@) && !reads(
            rule.rule_type@,
            "domain-suffix"@,
        ) && !reads(rule.rule_type@, "domain-keyword"@) && !reads(rule.rule_type@, "ip-cidr"@)
            && !reads(rule.rule_type@, "geoip"@) && !reads(rule.rule_type@, "match"@) && !reads(
            rule.rule_type@,
            "final"@,
        )),
    ensures
        decided_by(rule, default, geo, host) == default,
{
    lemma_one_rule(rule, default, geo, host);
}

/// A rule in front of others decides for the hosts for which it decides alone;
/// for every other host the others do.
pub proof fn law_rules_are_tried_in_order(
    rule: RoutingRule,
    others: Seq<RoutingRule>,
    default: RouteAction,
    geo: Option<geoip::GeoDbModel>,
    host: Seq<char>,
)
    ensures
        ({
            let m = |rules: Seq<RoutingRule>, d: RouteAction|
                RouterModel { rules: compiled(rules), default_action: d, geo, cache: seq![] };
            answer_of(m(seq![rule] + others, default), host) == decided_by(
                rule,
                answer_of(m(others, default), host),
                geo,
                host,
            )
        }),
{
    let rest = answer_of(
        RouterModel {
            rules: compiled(others),
            default_action: default,
            geo,
            cache: seq![],
        },
        host,
    );
    lemma_one_rule(rule, rest, geo, host);
    lemma_compiled_joined(rule, others);
    let all = compiled(seq![rule] + others);
    assert(seq![rule].drop_last() =~= seq![]);
    assert(compiled(seq![rule].drop_last()) =~= seq![]);
    if compiled(seq![rule]).len() > 0 {
        assert(all.drop_first() =~= compiled(others));
        assert(all[0] == compiled(seq![rule])[0]);
    } else {
        assert(all =~= compiled(others));
    }
}

proof fn lemma_compiled_joined(rule: RoutingRule, others: Seq<RoutingRule>)
    ensures
        compiled(seq![rule] + others) == compiled(seq![rule]) + compiled(others),
    decreases others.len(),
{
    let all = seq![rule] + others;
    if others.len() == 0 {
        assert(all =~= seq![rule]);
        assert(compiled(seq![rule]) + compiled(others) =~= compiled(seq![rule]));
    } else {
        lemma_compiled_joined(rule, others.drop_last());
        assert(all.drop_last() =~= seq![rule] + others.drop_last());
        assert(compiled(all) =~= compiled(seq![rule]) + compiled(others));
    }
}

/// What the router says to a target, and what it remembers of it.
pub open spec fn is_route_step(m: RouterModel, host: Seq<char>, r: RouteStep, after: RouterModel) -> bool {
    match remembered(m, host) {
        Some(a) => r == RouteStep::Decided(a) && after == consulted(m, host),
        None => if net::ip_of(host) is None && needs_address(m.rules, text::folded(host)) {
            r matches RouteStep::Resolve(name) && name@ == text::folded(host) && after == m
        } else {
            r matches RouteStep::Decided(a) && a == ruling(m, host, net::ip_of(host)) && after
                == learnt(m, host, a)
        },
    }
}

/// A name is looked up only where a rule on addresses may decide; a name that no such rule is
/// reached for, an address, and a target that is remembered are decided at once, as the rules
/// say, and so again the next time.
pub proof fn law_targets_are_decided(
    m: RouterModel,
    host: Seq<char>,
    r: RouteStep,
    after: RouterModel,
)
    requires
        is_route_step(m, host, r, after),
    ensures
        r matches RouteStep::Decided(a) ==> a == answer_of(m, host) && answer_of(after, host) == a
            || remembered(m, host) is Some && a == remembered(m, host)->0,
        r matches RouteStep::Resolve(name) ==> name@ == text::folded(host) && after == m
            && net::ip_of(host) is None && remembered(m, host) is None && needs_address(
            m.rules,
            text::folded(host),
        ),
        net::ip_of(host) is Some || remembered(m, host) is Some ==> r is Decided,
{
    if remembered(m, host) is None && r is Decided {
        law_decisions_are_remembered(m, host, host, r->Decided_0);
    }
}

/// The first IPv4 address stands for a name, whatever comes before it; without one the first
/// address does.
pub proof fn law_first_v4_address_stands_for_a_name(addrs: Seq<SocketAddr>, k: int)
    requires
        0 <= k < addrs.len(),
    ensures
        addrs[k].ip is V4 && (forall|j: int| 0 <= j < k ==> (#[trigger] addrs[j]).ip is V6)
            ==> chosen_address(addrs) == Some(addrs[k].ip),
        (forall|j: int| 0 <= j < addrs.len() ==> (#[trigger] addrs[j]).ip is V6)
            ==> chosen_address(addrs) == Some(addrs[0].ip),
{
    let keep = |a: SocketAddr| a.ip is V4;
    if addrs[k].ip is V4 && (forall|j: int| 0 <= j < k ==> (#[trigger] addrs[j]).ip is V6) {
        lemma_first_kept(addrs, k);
    }
    if forall|j: int| 0 <= j < addrs.len() ==> (#[trigger] addrs[j]).ip is V6 {
        if addrs.filter(keep).len() > 0 {
            addrs.lemma_filter_pred(keep, 0);
            assert(addrs.filter(keep).contains(addrs.filter(keep)[0]));
            addrs.lemma_filter_contains_rev(keep, addrs.filter(keep)[0]);
        }
    }
}

proof fn lemma_first_kept(addrs: Seq<SocketAddr>, k: int)
    requires
        0 <= k < addrs.len(),
        addrs[k].ip is V4,
        forall|j: int| 0 <= j < k ==> (#[trigger] addrs[j]).ip is V6,
    ensures
        addrs.filter(|a: SocketAddr| a.ip is V4).len() > 0,
        addrs.filter(|a: SocketAddr| a.ip is V4)[0] == addrs[k],
    decreases addrs.len(),
{
    let keep = |a: SocketAddr| a.ip is V4;
    reveal(Seq::filter);
    let front = addrs.drop_last();
    if k < front.len() {
        assert(front[k] == addrs[k]);
        lemma_first_kept(front, k);
    } else {
        if front.filter(keep).len() > 0 {
            front.lemma_filter_pred(keep, 0);
            let x = front.filter(keep)[0];
            assert(front.filter(keep).contains(x));
            front.lemma_filter_contains_rev(keep, x);
            let j = choose|j: int| 0 <= j < front.len() && front[j] == x;
            assert(addrs[j].ip is V6);
        }
    }
}

} // verus!
