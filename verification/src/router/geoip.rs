//! The country of an address.

use vstd::prelude::*;

use crate::net;
use crate::net::IpAddr;
use crate::text;

verus! {

broadcast use {
    vstd::seq::group_seq_axioms,
    vstd::slice::group_slice_axioms,
    vstd::string::group_string_axioms,
    vstd::std_specs::vec::group_vec_axioms,
};

/// A range of addresses and its country.
#[derive(Debug)]
pub struct GeoEntry {
    pub addr: u128,
    pub prefix_len: u8,
    pub country: String,
}

/// A range of addresses and its country.
pub struct GeoModel {
    pub addr: u128,
    pub prefix_len: u8,
    pub country: Seq<char>,
}

impl View for GeoEntry {
    type V = GeoModel;

    open spec fn view(&self) -> GeoModel {
        GeoModel { addr: self.addr, prefix_len: self.prefix_len, country: self.country@ }
    }
}

impl GeoEntry {
    fn duplicate(&self) -> (r: Self)
        ensures
            r@ == self@,
    {
        GeoEntry {
            addr: self.addr,
            prefix_len: self.prefix_len,
            country: self.country.clone(),
        }
    }
}

/// What entries hold.
pub open spec fn entry_models(v: Seq<GeoEntry>) -> Seq<GeoModel> {
    v.map_values(|e: GeoEntry| e@)
}

/// Countries by ranges of addresses.
#[derive(Debug)]
pub struct GeoIpDb {
    pub v4_entries: Vec<GeoEntry>,
    pub v6_entries: Vec<GeoEntry>,
}

/// Countries by ranges of addresses.
#[verifier::ext_equal]
pub struct GeoDbModel {
    pub v4: Seq<GeoModel>,
    pub v6: Seq<GeoModel>,
}

impl View for GeoIpDb {
    type V = GeoDbModel;

    open spec fn view(&self) -> GeoDbModel {
        GeoDbModel { v4: entry_models(self.v4_entries@), v6: entry_models(self.v6_entries@) }
    }
}

/// The bits of an address.
pub open spec fn ip_bits(ip: IpAddr) -> u128 {
    match ip {
        IpAddr::V4(v) => v as u128,
        IpAddr::V6(v) => v,
    }
}

fn ip_to_u128(ip: IpAddr) -> (r: u128)
    ensures
        r == ip_bits(ip),
{
    match ip {
        IpAddr::V4(v) => v as u128,
        IpAddr::V6(v) => v,
    }
}

/// The numbers agree in all but their last `drop` bits.
pub open spec fn same_prefix(a: u128, b: u128, drop: u32) -> bool {
    drop >= 128 || a >> drop == b >> drop
}

/// The numbers agree in all but their last `drop` bits.
pub fn agree(a: u128, b: u128, drop: u32) -> (r: bool)
    ensures
        r == same_prefix(a, b, drop),
{
    if drop >= 128 {
        return true;
    }
    a >> drop == b >> drop
}

/// How many bits of an address a range leaves open. A prefix that is longer
/// than the address leaves none.
pub open spec fn open_bits(total: u32, prefix_len: u8) -> u32 {
    if prefix_len >= total {
        0
    } else {
        (total - prefix_len) as u32
    }
}

/// The address lies in the range.
pub open spec fn in_range(e: GeoModel, bits: u128, total: u32) -> bool {
    same_prefix(bits, e.addr, open_bits(total, e.prefix_len))
}

/// The country of the first range in which the address lies.
pub open spec fn first_country(entries: Seq<GeoModel>, bits: u128, total: u32) -> Option<Seq<char>>
    decreases entries.len(),
{
    if entries.len() == 0 {
        None
    } else if in_range(entries[0], bits, total) {
        Some(entries[0].country)
    } else {
        first_country(entries.drop_first(), bits, total)
    }
}

/// The country of an address.
pub open spec fn country_of(m: GeoDbModel, ip: IpAddr) -> Option<Seq<char>> {
    match ip {
        IpAddr::V4(_) => first_country(m.v4, ip_bits(ip), 32),
        IpAddr::V6(_) => first_country(m.v6, ip_bits(ip), 128),
    }
}

/// The range that a text writes: an address, a slash, and the length of the
/// prefix, which is not held to the length of the address.
pub open spec fn range_of(cidr: Seq<char>) -> Option<(IpAddr, u8)> {
    let i = text::first_index(cidr, '/');
    if i < cidr.len() {
        match (net::ip_of(cidr.take(i)), text::parsed_uint(cidr.skip(i + 1), 10, 255)) {
            (Some(ip), Some(p)) => Some((ip, p as u8)),
            _ => None,
        }
    } else {
        None
    }
}

/// The range that a text writes.
pub fn parse_range(cidr: &[char]) -> (r: Option<(IpAddr, u8)>)
    ensures
        r == range_of(cidr@),
{
    let i: usize = text::find_char(cidr, '/');
    if i == cidr.len() {
        return None;
    }
    let head = vstd::slice::slice_subrange(cidr, 0, i);
    let tail = vstd::slice::slice_subrange(cidr, i + 1, cidr.len());
    assert(head@ =~= cidr@.take(i as int));
    assert(tail@ =~= cidr@.skip(i + 1));
    let ip = match net::parse_ip_chars(head) {
        Some(ip) => ip,
        None => {
            return None;
        },
    };
    match text::parse_uint(tail, 10, 255) {
        Some(p) => Some((ip, p as u8)),
        None => None,
    }
}

/// The database with one more range; unchanged if the text is not a range.
pub open spec fn added(m: GeoDbModel, cidr: Seq<char>, country: Seq<char>) -> GeoDbModel {
    match range_of(cidr) {
        Some((ip, p)) => {
            let e = GeoModel {
                addr: ip_bits(ip),
                prefix_len: p,
                country: text::raised(country),
            };
            match ip {
                IpAddr::V4(_) => GeoDbModel { v4: m.v4.push(e), ..m },
                IpAddr::V6(_) => GeoDbModel { v6: m.v6.push(e), ..m },
            }
        },
        None => m,
    }
}

// ---------------------------------------------------------------------------
// Order
// ---------------------------------------------------------------------------

/// The ranges with one length of prefix, in their order.
pub open spec fn of_prefix(s: Seq<GeoModel>, p: u8) -> Seq<GeoModel>
    decreases s.len(),
{
    if s.len() == 0 {
        seq![]
    } else if s.last().prefix_len == p {
        of_prefix(s.drop_last(), p).push(s.last())
    } else {
        of_prefix(s.drop_last(), p)
    }
}

/// Longer prefixes stand before shorter ones.
pub open spec fn longest_first(s: Seq<GeoModel>) -> bool {
    forall|i: int, j: int|
        0 <= i < j < s.len() ==> (#[trigger] s[i]).prefix_len >= (#[trigger] s[j]).prefix_len
}

/// The ranges in the order of their prefixes: the same ranges, longer
/// prefixes first, and among equal prefixes the order in which they stood.
pub open spec fn is_ordered(before: Seq<GeoModel>, after: Seq<GeoModel>) -> bool {
    &&& longest_first(after)
    &&& after.len() == before.len()
    &&& forall|p: u8| #[trigger] of_prefix(after, p) == of_prefix(before, p)
}

proof fn lemma_of_prefix_add(a: Seq<GeoModel>, b: Seq<GeoModel>, p: u8)
    ensures
        of_prefix(a + b, p) == of_prefix(a, p) + of_prefix(b, p),
    decreases b.len(),
{
    if b.len() == 0 {
        assert(a + b =~= a);
        assert(of_prefix(a, p) + of_prefix(b, p) =~= of_prefix(a, p));
    } else {
        lemma_of_prefix_add(a, b.drop_last(), p);
        assert((a + b).drop_last() =~= a + b.drop_last());
        assert((a + b).last() == b.last());
        assert(of_prefix(a + b, p) =~= of_prefix(a, p) + of_prefix(b, p));
    }
}

proof fn lemma_of_prefix(s: Seq<GeoModel>, p: u8, q: u8)
    ensures
        forall|i: int|
            0 <= i < of_prefix(s, p).len() ==> (#[trigger] of_prefix(s, p)[i]).prefix_len == p,
        of_prefix(of_prefix(s, p), q) == (if p == q {
            of_prefix(s, p)
        } else {
            seq![]
        }),
    decreases s.len(),
{
    if s.len() > 0 {
        lemma_of_prefix(s.drop_last(), p, q);
        if s.last().prefix_len == p {
            let t = of_prefix(s.drop_last(), p);
            assert(t.push(s.last()).drop_last() =~= t);
            assert(t.push(s.last()).last() == s.last());
        }
    }
}

/// How many ranges have a prefix of at least `p`.
spec fn count_from(s: Seq<GeoModel>, p: int) -> nat
    decreases s.len(),
{
    if s.len() == 0 {
        0
    } else {
        count_from(s.drop_last(), p) + if s.last().prefix_len >= p {
            1nat
        } else {
            0nat
        }
    }
}

proof fn lemma_count_step(s: Seq<GeoModel>, p: u8)
    ensures
        count_from(s, p as int) == count_from(s, p + 1) + of_prefix(s, p).len(),
    decreases s.len(),
{
    if s.len() > 0 {
        lemma_count_step(s.drop_last(), p);
    }
}

proof fn lemma_count_ends(s: Seq<GeoModel>)
    ensures
        count_from(s, 256) == 0,
        count_from(s, 0) == s.len(),
    decreases s.len(),
{
    if s.len() > 0 {
        lemma_count_ends(s.drop_last());
    }
}

/// The ranges in the order of their prefixes.
fn order(entries: &Vec<GeoEntry>) -> (r: Vec<GeoEntry>)
    ensures
        is_ordered(entry_models(entries@), entry_models(r@)),
{
    let ghost s = entry_models(entries@);
    let mut out: Vec<GeoEntry> = Vec::new();
    let mut left: u32 = 256;
    proof {
        lemma_count_ends(s);
        assert(entry_models(out@) =~= seq![]);
    }
    while left > 0
        invariant
            left <= 256,
            s == entry_models(entries@),
            longest_first(entry_models(out@)),
            forall|i: int|
                0 <= i < out@.len() ==> (#[trigger] entry_models(out@)[i]).prefix_len >= left,
            entry_models(out@).len() == count_from(s, left as int),
            forall|q: u8|
                #[trigger] of_prefix(entry_models(out@), q) == (if q >= left {
                    of_prefix(s, q)
                } else {
                    seq![]
                }),
        decreases left,
    {
        left = left - 1;
        let p: u8 = left as u8;
        let ghost before = entry_models(out@);
        let mut i: usize = 0;
        assert(s.take(0) =~= seq![]);
        assert(before + of_prefix(s.take(0), p) =~= before);
        while i < entries.len()
            invariant
                i <= entries@.len(),
                s == entry_models(entries@),
                entry_models(out@) == before + of_prefix(s.take(i as int), p),
            decreases entries@.len() - i,
        {
            let ghost t = s.take(i + 1);
            assert(t.drop_last() =~= s.take(i as int));
            assert(t.last() == entries@[i as int]@);
            let ghost cur = entry_models(out@);
            if entries[i].prefix_len == p {
                out.push(entries[i].duplicate());
                assert(entry_models(out@) =~= cur.push(t.last()));
            }
            assert(entry_models(out@) =~= before + of_prefix(t, p));
            i = i + 1;
        }
        proof {
            assert(s.take(i as int) =~= s);
            let part = of_prefix(s, p);
            let after = entry_models(out@);
            assert(after == before + part);
            lemma_of_prefix(s, p, p);
            lemma_count_step(s, p);
            assert forall|q: u8| #[trigger] of_prefix(after, q) == (if q >= left {
                of_prefix(s, q)
            } else {
                seq![]
            }) by {
                lemma_of_prefix_add(before, part, q);
                lemma_of_prefix(s, p, q);
                if q == p {
                    assert(of_prefix(before, q) == Seq::<GeoModel>::empty());
                    assert(of_prefix(after, q) =~= part);
                } else {
                    assert(of_prefix(after, q) =~= of_prefix(before, q));
                }
            }
            assert forall|a: int| 0 <= a < after.len() implies (#[trigger] after[a]).prefix_len
                >= left by {
                if a < before.len() {
                    assert(after[a] == before[a]);
                } else {
                    assert(after[a] == part[a - before.len()]);
                }
            }
            assert forall|a: int, b: int| 0 <= a < b < after.len() implies (
            #[trigger] after[a]).prefix_len >= (#[trigger] after[b]).prefix_len by {
                if b < before.len() {
                    assert(after[a] == before[a] && after[b] == before[b]);
                } else {
                    assert(after[b] == part[b - before.len()]);
                    assert(after[a].prefix_len >= left);
                }
            }
        }
    }
    proof {
        lemma_count_ends(s);
    }
    out
}

// ---------------------------------------------------------------------------
// The database
// ---------------------------------------------------------------------------

/// The database that lines make: each names a range and a country; empty
/// lines, lines that begin with a hash, and lines with one word are skipped.
pub open spec fn loaded(lines: Seq<Seq<char>>) -> GeoDbModel
    decreases lines.len(),
{
    if lines.len() == 0 {
        GeoDbModel { v4: seq![], v6: seq![] }
    } else {
        let before = loaded(lines.drop_last());
        let line = text::trimmed(lines.last());
        let words = text::words(line);
        if line.len() == 0 || line[0] == '#' || words.len() < 2 {
            before
        } else {
            added(before, words[0], words[1])
        }
    }
}

/// A range for private use.
pub open spec fn private_range(addr: u128, prefix_len: u8) -> GeoModel {
    GeoModel { addr, prefix_len, country: "PRIVATE"@ }
}

fn private_entry(addr: u128, prefix_len: u8) -> (r: GeoEntry)
    ensures
        r@ == private_range(addr, prefix_len),
{
    GeoEntry {
        addr,
        prefix_len,
        country: text::string_of(text::chars_of("PRIVATE").as_slice()),
    }
}

impl Default for GeoIpDb {
    fn default() -> (r: Self)
        ensures
            r@ == (GeoDbModel { v4: seq![], v6: seq![] }),
    {
        GeoIpDb::new()
    }
}

impl GeoIpDb {
    /// A database without ranges.
    pub fn new() -> (r: Self)
        ensures
            r@ == (GeoDbModel { v4: seq![], v6: seq![] }),
    {
        let r = GeoIpDb { v4_entries: Vec::new(), v6_entries: Vec::new() };
        assert(r@ =~= GeoDbModel { v4: seq![], v6: seq![] });
        r
    }

    /// Adds a range; a text that is not a range is skipped.
    pub fn add_entry(&mut self, cidr: &str, country: &str)
        ensures
            final(self)@ == added(old(self)@, cidr@, country@),
    {
        let chars = text::chars_of(cidr);
        self.add_chars(chars.as_slice(), country);
    }

    fn add_chars(&mut self, cidr: &[char], country: &str)
        ensures
            final(self)@ == added(old(self)@, cidr@, country@),
    {
        if let Some((ip, prefix_len)) = parse_range(cidr) {
            let entry = GeoEntry {
                addr: ip_to_u128(ip),
                prefix_len,
                country: text::raise(country),
            };
            let ghost e = entry@;
            match ip {
                IpAddr::V4(_) => {
                    self.v4_entries.push(entry);
                    assert(self@.v4 =~= old(self)@.v4.push(e));
                },
                IpAddr::V6(_) => {
                    self.v6_entries.push(entry);
                    assert(self@.v6 =~= old(self)@.v6.push(e));
                },
            }
        }
    }

    /// Puts the ranges in the order in which they are looked at.
    pub fn build(&mut self)
        ensures
            is_ordered(old(self)@.v4, final(self)@.v4),
            is_ordered(old(self)@.v6, final(self)@.v6),
    {
        self.v4_entries = order(&self.v4_entries);
        self.v6_entries = order(&self.v6_entries);
    }

    /// The country of an address.
    pub fn lookup(&self, ip: IpAddr) -> (r: Option<&str>)
        ensures
            r is Some == country_of(self@, ip) is Some,
            r matches Some(c) ==> country_of(self@, ip) == Some(c@),
    {
        let bits: u128 = ip_to_u128(ip);
        let (entries, total): (&Vec<GeoEntry>, u32) = match ip {
            IpAddr::V4(_) => (&self.v4_entries, 32),
            IpAddr::V6(_) => (&self.v6_entries, 128),
        };
        let ghost all = entry_models(entries@);
        let mut i: usize = 0;
        assert(all.skip(0) =~= all);
        while i < entries.len()
            invariant
                i <= entries@.len(),
                all == entry_models(entries@),
                total == 32 || total == 128,
                first_country(all, bits, total) == first_country(all.skip(i as int), bits, total),
                country_of(self@, ip) == first_country(all, bits, total),
            decreases entries@.len() - i,
        {
            let e = &entries[i];
            assert(all.skip(i as int)[0] == e@);
            let drop: u32 = if e.prefix_len as u32 >= total {
                0
            } else {
                total - e.prefix_len as u32
            };
            if agree(bits, e.addr, drop) {
                return Some(e.country.as_str());
            }
            assert(all.skip(i as int).drop_first() =~= all.skip(i + 1));
            i = i + 1;
        }
        None
    }

    /// The database that a text describes, ready for use.
    pub fn load_from_text(text: &str) -> (r: Self)
        ensures
            is_ordered(loaded(text::lines_of(text@)).v4, r@.v4),
            is_ordered(loaded(text::lines_of(text@)).v6, r@.v6),
    {
        let mut db = GeoIpDb::new();
        let lines = text::split_lines(text::chars_of(text).as_slice());
        let ghost all = text::texts(lines@);
        let mut i: usize = 0;
        assert(db@ == loaded(all.take(0)));
        while i < lines.len()
            invariant
                i <= lines@.len(),
                all == text::texts(lines@),
                db@ == loaded(all.take(i as int)),
            decreases lines@.len() - i,
        {
            let ghost t = all.take(i + 1);
            assert(t.drop_last() =~= all.take(i as int));
            assert(t.last() == lines@[i as int]@);
            let line = text::trim(lines[i].as_slice());
            if line.len() > 0 && line[0] != '#' {
                let parts = text::split_words(line);
                assert(text::texts(parts@).len() == parts@.len());
                if parts.len() >= 2 {
                    let country = text::string_of(parts[1].as_slice());
                    assert(text::texts(parts@)[0] == parts@[0]@);
                    assert(text::texts(parts@)[1] == parts@[1]@);
                    db.add_chars(parts[0].as_slice(), country.as_str());
                }
            }
            i = i + 1;
        }
        assert(all.take(i as int) =~= all);
        db.build();
        db
    }

    /// The private and link-local ranges, ready for use.
    pub fn builtin() -> (r: Self)
        ensures
            r@ == builtin_ranges(),
            longest_first(r@.v4),
            longest_first(r@.v6),
    {
        let mut v4: Vec<GeoEntry> = Vec::new();
        v4.push(private_entry(0xc0a8_0000, 16));
        v4.push(private_entry(0xa9fe_0000, 16));
        v4.push(private_entry(0xac10_0000, 12));
        v4.push(private_entry(0x0a00_0000, 8));
        v4.push(private_entry(0x7f00_0000, 8));
        let mut v6: Vec<GeoEntry> = Vec::new();
        v6.push(private_entry(1, 128));
        v6.push(private_entry(0xfe80_0000_0000_0000_0000_0000_0000_0000, 10));
        v6.push(private_entry(0xfc00_0000_0000_0000_0000_0000_0000_0000, 7));
        let db = GeoIpDb { v4_entries: v4, v6_entries: v6 };
        assert(db@.v4 =~= seq![
            private_range(0xc0a8_0000, 16),
            private_range(0xa9fe_0000, 16),
            private_range(0xac10_0000, 12),
            private_range(0x0a00_0000, 8),
            private_range(0x7f00_0000, 8),
        ]);
        assert(db@.v6 =~= seq![
            private_range(1, 128),
            private_range(0xfe80_0000_0000_0000_0000_0000_0000_0000, 10),
            private_range(0xfc00_0000_0000_0000_0000_0000_0000_0000, 7),
        ]);
        db
    }

    /// How many ranges there are.
    pub fn entry_count(&self) -> (r: usize)
        requires
            self@.v4.len() + self@.v6.len() <= usize::MAX,
        ensures
            r == self@.v4.len() + self@.v6.len(),
    {
        assert(self@.v4.len() == self.v4_entries.len());
        assert(self@.v6.len() == self.v6_entries.len());
        self.v4_entries.len() + self.v6_entries.len()
    }
}

proof fn lemma_first_country(entries: Seq<GeoModel>, bits: u128, total: u32, k: int)
    requires
        longest_first(entries),
        0 <= k < entries.len(),
        in_range(entries[k], bits, total),
    ensures
        first_country(entries, bits, total) is Some,
        exists|i: int|
            0 <= i <= k && in_range(#[trigger] entries[i], bits, total) && first_country(
                entries,
                bits,
                total,
            ) == Some(entries[i].country) && entries[i].prefix_len >= entries[k].prefix_len,
    decreases entries.len(),
{
    if in_range(entries[0], bits, total) {
        assert(entries[0].prefix_len >= entries[k].prefix_len);
    } else {
        let t = entries.drop_first();
        assert forall|i: int, j: int| 0 <= i < j < t.len() implies (#[trigger] t[i]).prefix_len >= (
        #[trigger] t[j]).prefix_len by {
            assert(t[i] == entries[i + 1] && t[j] == entries[j + 1]);
        }
        assert(t[k - 1] == entries[k]);
        lemma_first_country(t, bits, total, k - 1);
        let i = choose|i: int|
            0 <= i <= k - 1 && in_range(#[trigger] t[i], bits, total) && first_country(
                t,
                bits,
                total,
            ) == Some(t[i].country) && t[i].prefix_len >= t[k - 1].prefix_len;
        assert(entries[i + 1] == t[i]);
    }
}

/// In a database that is ready for use, the longest prefix decides: whatever
/// range an address lies in, the country that is given is that of a range
/// that is at least as narrow and in which the address lies too.
pub proof fn law_longest_prefix_decides(entries: Seq<GeoModel>, bits: u128, total: u32, k: int)
    requires
        longest_first(entries),
        0 <= k < entries.len(),
        in_range(entries[k], bits, total),
    ensures
        exists|i: int|
            0 <= i < entries.len() && in_range(#[trigger] entries[i], bits, total)
                && first_country(entries, bits, total) == Some(entries[i].country)
                && entries[i].prefix_len >= entries[k].prefix_len,
{
    lemma_first_country(entries, bits, total, k);
}

/// An address in no range has no country.
pub proof fn law_no_range_no_country(entries: Seq<GeoModel>, bits: u128, total: u32)
    requires
        forall|i: int| 0 <= i < entries.len() ==> !in_range(#[trigger] entries[i], bits, total),
    ensures
        first_country(entries, bits, total) is None,
    decreases entries.len(),
{
    if entries.len() > 0 {
        let t = entries.drop_first();
        assert forall|i: int| 0 <= i < t.len() implies !in_range(#[trigger] t[i], bits, total) by {
            assert(t[i] == entries[i + 1]);
        }
        law_no_range_no_country(t, bits, total);
    }
}

/// The country is that of the entry in which the address lies and whose
/// prefix is longest; of entries with equal prefixes the one that was added
/// first counts. There is none where the address lies in no entry.
pub open spec fn is_best(entries: Seq<GeoModel>, bits: u128, total: u32, r: Option<Seq<char>>) -> bool {
    match r {
        Some(c) => exists|i: int| #[trigger]
            beats_all(entries, bits, total, i) && entries[i].country == c,
        None => forall|i: int| 0 <= i < entries.len() ==> !in_range(#[trigger] entries[i], bits, total),
    }
}

/// The address lies in the entry, and no other one in which it lies comes
/// before it.
pub open spec fn beats_all(entries: Seq<GeoModel>, bits: u128, total: u32, i: int) -> bool {
    &&& 0 <= i < entries.len()
    &&& in_range(entries[i], bits, total)
    &&& forall|j: int|
        0 <= j < entries.len() && in_range(#[trigger] entries[j], bits, total) ==> entries[j].prefix_len
            < entries[i].prefix_len || entries[j].prefix_len == entries[i].prefix_len && j >= i
}

proof fn lemma_first_country_push(s: Seq<GeoModel>, e: GeoModel, bits: u128, total: u32)
    ensures
        first_country(s.push(e), bits, total) == (match first_country(s, bits, total) {
            Some(c) => Some(c),
            None => if in_range(e, bits, total) {
                Some(e.country)
            } else {
                None
            },
        }),
    decreases s.len(),
{
    let t = s.push(e);
    if s.len() == 0 {
        assert(t.drop_first() =~= seq![]);
        assert(t[0] == e);
        assert(first_country(t.drop_first(), bits, total) is None);
    } else {
        assert(t[0] == s[0]);
        assert(t.drop_first() =~= s.drop_first().push(e));
        lemma_first_country_push(s.drop_first(), e, bits, total);
    }
}

/// The entry has the prefix, the address lies in it, and in none before it
/// that has the prefix.
spec fn leads(s: Seq<GeoModel>, bits: u128, total: u32, p: u8, i: int) -> bool {
    &&& 0 <= i < s.len()
    &&& s[i].prefix_len == p
    &&& in_range(s[i], bits, total)
    &&& forall|j: int|
        0 <= j < i && (#[trigger] s[j]).prefix_len == p ==> !in_range(s[j], bits, total)
}

proof fn lemma_of_prefix_country(s: Seq<GeoModel>, bits: u128, total: u32, p: u8)
    ensures
        match first_country(of_prefix(s, p), bits, total) {
            Some(c) => exists|i: int| #[trigger]
                leads(s, bits, total, p, i) && s[i].country == c,
            None => forall|j: int|
                0 <= j < s.len() && (#[trigger] s[j]).prefix_len == p ==> !in_range(
                    s[j],
                    bits,
                    total,
                ),
        },
    decreases s.len(),
{
    if s.len() > 0 {
        let d = s.drop_last();
        lemma_of_prefix_country(d, bits, total, p);
        if s.last().prefix_len == p {
            lemma_first_country_push(of_prefix(d, p), s.last(), bits, total);
        }
        match first_country(of_prefix(d, p), bits, total) {
            Some(c) => {
                let i = choose|i: int| #[trigger]
                    leads(d, bits, total, p, i) && d[i].country == c;
                assert forall|j: int|
                    0 <= j < i && (#[trigger] s[j]).prefix_len == p implies !in_range(
                    s[j],
                    bits,
                    total,
                ) by {
                    assert(d[j] == s[j]);
                }
                assert(s[i] == d[i]);
                assert(leads(s, bits, total, p, i));
            },
            None => {
                assert forall|j: int|
                    0 <= j < s.len() - 1 && (#[trigger] s[j]).prefix_len == p implies !in_range(
                    s[j],
                    bits,
                    total,
                ) by {
                    assert(d[j] == s[j]);
                }
                let n = s.len() - 1;
                assert(s[n] == s.last());
                if s.last().prefix_len == p && in_range(s.last(), bits, total) {
                    assert(leads(s, bits, total, p, n));
                }
            },
        }
    }
}

proof fn lemma_first_is_in_range(s: Seq<GeoModel>, bits: u128, total: u32)
    ensures
        first_country(s, bits, total) matches Some(c) ==> exists|i: int|
            0 <= i < s.len() && in_range(#[trigger] s[i], bits, total) && s[i].country == c
                && forall|j: int| 0 <= j < i ==> !in_range(#[trigger] s[j], bits, total),
        first_country(s, bits, total) is None ==> forall|i: int|
            0 <= i < s.len() ==> !in_range(#[trigger] s[i], bits, total),
    decreases s.len(),
{
    if s.len() > 0 && !in_range(s[0], bits, total) {
        let t = s.drop_first();
        lemma_first_is_in_range(t, bits, total);
        if let Some(c) = first_country(t, bits, total) {
            let i = choose|i: int|
                0 <= i < t.len() && in_range(#[trigger] t[i], bits, total) && t[i].country == c
                    && forall|j: int| 0 <= j < i ==> !in_range(#[trigger] t[j], bits, total);
            assert(s[i + 1] == t[i]);
            assert forall|j: int| 0 <= j < i + 1 implies !in_range(#[trigger] s[j], bits, total) by {
                if j > 0 {
                    assert(t[j - 1] == s[j]);
                }
            }
        } else {
            assert forall|i: int| 0 <= i < s.len() implies !in_range(#[trigger] s[i], bits, total) by {
                if i > 0 {
                    assert(t[i - 1] == s[i]);
                }
            }
        }
    }
}

proof fn lemma_ordered_is_best(before: Seq<GeoModel>, after: Seq<GeoModel>, bits: u128, total: u32)
    requires
        is_ordered(before, after),
    ensures
        is_best(before, bits, total, first_country(after, bits, total)),
{
    lemma_first_is_in_range(after, bits, total);
    match first_country(after, bits, total) {
        Some(c) => {
            let k = choose|k: int|
                0 <= k < after.len() && in_range(#[trigger] after[k], bits, total) && after[k].country
                    == c && forall|j: int|
                    0 <= j < k ==> !in_range(#[trigger] after[j], bits, total);
            let p = after[k].prefix_len;
            lemma_of_prefix_country(after, bits, total, p);
            lemma_of_prefix_country(before, bits, total, p);
            assert(of_prefix(after, p) == of_prefix(before, p));
            assert(first_country(of_prefix(after, p), bits, total) is Some);
            let lead = choose|i: int| #[trigger]
                leads(after, bits, total, p, i) && after[i].country == first_country(
                    of_prefix(after, p),
                    bits,
                    total,
                )->0;
            assert(lead == k);
            let i = choose|i: int| #[trigger]
                leads(before, bits, total, p, i) && before[i].country == c;
            assert forall|j: int|
                0 <= j < before.len() && in_range(#[trigger] before[j], bits, total) implies before[j].prefix_len
                < before[i].prefix_len || before[j].prefix_len == before[i].prefix_len && j >= i by {
                let q = before[j].prefix_len;
                if q > p {
                    lemma_of_prefix_country(before, bits, total, q);
                    lemma_of_prefix_country(after, bits, total, q);
                    assert(of_prefix(after, q) == of_prefix(before, q));
                    let x = choose|x: int| #[trigger]
                        leads(after, bits, total, q, x) && after[x].country == first_country(
                            of_prefix(after, q),
                            bits,
                            total,
                        )->0;
                    assert(x >= k);
                    if x > k {
                        assert(after[k].prefix_len >= after[x].prefix_len);
                    }
                }
            }
            assert(beats_all(before, bits, total, i));
        },
        None => {
            assert forall|i: int| 0 <= i < before.len() implies !in_range(
                #[trigger] before[i],
                bits,
                total,
            ) by {
                let q = before[i].prefix_len;
                lemma_of_prefix_country(before, bits, total, q);
                lemma_of_prefix_country(after, bits, total, q);
                assert(of_prefix(after, q) == of_prefix(before, q));
            }
        },
    }
}

proof fn lemma_best_is_one(
    entries: Seq<GeoModel>,
    bits: u128,
    total: u32,
    a: Option<Seq<char>>,
    b: Option<Seq<char>>,
)
    requires
        is_best(entries, bits, total, a),
        is_best(entries, bits, total, b),
    ensures
        a == b,
{
    if a is Some && b is Some {
        let i = choose|i: int| #[trigger]
            beats_all(entries, bits, total, i) && entries[i].country == a->0;
        let j = choose|j: int| #[trigger]
            beats_all(entries, bits, total, j) && entries[j].country == b->0;
        assert(in_range(entries[i], bits, total) && in_range(entries[j], bits, total));
        assert(i == j);
    }
}

/// The ranges of the family of an address, and the length of its addresses.
pub open spec fn family(m: GeoDbModel, ip: IpAddr) -> (Seq<GeoModel>, u32) {
    match ip {
        IpAddr::V4(_) => (m.v4, 32),
        IpAddr::V6(_) => (m.v6, 128),
    }
}

/// Whatever ranges were added, once the database is ready for use the country
/// of an address is that of the longest prefix that was added for it, and
/// there is none where there is no such prefix. No range is lost, and to make
/// it ready once more changes no answer.
pub proof fn law_ready_database_gives_the_longest_prefix(
    before: GeoDbModel,
    after: GeoDbModel,
    again: GeoDbModel,
    ip: IpAddr,
)
    requires
        is_ordered(before.v4, after.v4),
        is_ordered(before.v6, after.v6),
        is_ordered(after.v4, again.v4),
        is_ordered(after.v6, again.v6),
    ensures
        is_best(family(before, ip).0, ip_bits(ip), family(before, ip).1, country_of(after, ip)),
        after.v4.len() + after.v6.len() == before.v4.len() + before.v6.len(),
        country_of(again, ip) == country_of(after, ip),
{
    let bits = ip_bits(ip);
    let (b, total) = family(before, ip);
    let a = family(after, ip).0;
    let c = family(again, ip).0;
    lemma_ordered_is_best(b, a, bits, total);
    assert forall|p: u8| #[trigger] of_prefix(c, p) == of_prefix(b, p) by {
        assert(of_prefix(a, p) == of_prefix(b, p));
    }
    lemma_ordered_is_best(b, c, bits, total);
    lemma_best_is_one(b, bits, total, country_of(after, ip), country_of(again, ip));
}

/// A network is read back from its text: the address, a slash, and the length
/// of the prefix.
pub proof fn lemma_range_text(ip: IpAddr, prefix_len: u8)
    ensures
        range_of(net::ip_text(ip) + seq!['/'] + text::decimal(prefix_len as nat)) == Some(
            (ip, prefix_len),
        ),
{
    let head = net::ip_text(ip);
    let tail = text::decimal(prefix_len as nat);
    let s = head + seq!['/'] + tail;
    net::law_ip_text_is_read_back(ip);
    net::lemma_ip_of_address(head);
    text::lemma_decimal(prefix_len as nat);
    assert forall|k: int| 0 <= k < head.len() implies #[trigger] s[k] != '/' by {
        assert(net::in_address(head[k]));
    }
    text::lemma_first_index_unique(s, '/', head.len() as int);
    assert(s.take(head.len() as int) =~= head);
    assert(s.skip((head.len() + 1) as int) =~= tail);
    assert('0' <= tail[0] <= '9');
    assert(text::unsigned_digits(tail) == tail);
}

/// The ranges that are known without a list.
pub open spec fn builtin_ranges() -> GeoDbModel {
    GeoDbModel {
        v4: seq![
            private_range(0xc0a8_0000, 16),
            private_range(0xa9fe_0000, 16),
            private_range(0xac10_0000, 12),
            private_range(0x0a00_0000, 8),
            private_range(0x7f00_0000, 8),
        ],
        v6: seq![
            private_range(1, 128),
            private_range(0xfe80_0000_0000_0000_0000_0000_0000_0000, 10),
            private_range(0xfc00_0000_0000_0000_0000_0000_0000_0000, 7),
        ],
    }
}

/// Without a list an IPv4 address is private where it is in 10, 127, 169.254, 172.16 to 172.31
/// or 192.168, and has no country elsewhere.
#[verifier::spinoff_prover]
pub proof fn law_private_v4_addresses_are_known(ip: u32)
    ensures
        country_of(builtin_ranges(), IpAddr::V4(ip)) == (if 0x0a00_0000 <= ip <= 0x0aff_ffff
            || 0x7f00_0000 <= ip <= 0x7fff_ffff || 0xa9fe_0000 <= ip <= 0xa9fe_ffff || 0xac10_0000
            <= ip <= 0xac1f_ffff || 0xc0a8_0000 <= ip <= 0xc0a8_ffff {
            Some("PRIVATE"@)
        } else {
            None
        }),
{
    let a = ip as u128;
    assert((a >> 16u32 == 0xc0a8_0000u128 >> 16u32) == (0xc0a8_0000 <= a <= 0xc0a8_ffff))
        by (bit_vector);
    assert((a >> 16u32 == 0xa9fe_0000u128 >> 16u32) == (0xa9fe_0000 <= a <= 0xa9fe_ffff))
        by (bit_vector);
    assert((a >> 20u32 == 0xac10_0000u128 >> 20u32) == (0xac10_0000 <= a <= 0xac1f_ffff))
        by (bit_vector);
    assert((a >> 24u32 == 0x0a00_0000u128 >> 24u32) == (0x0a00_0000 <= a <= 0x0aff_ffff))
        by (bit_vector);
    assert((a >> 24u32 == 0x7f00_0000u128 >> 24u32) == (0x7f00_0000 <= a <= 0x7fff_ffff))
        by (bit_vector);
    let e = builtin_ranges().v4;
    let e1 = e.drop_first();
    let e2 = e1.drop_first();
    let e3 = e2.drop_first();
    let e4 = e3.drop_first();
    assert(e1[0] == e[1] && e2[0] == e[2] && e3[0] == e[3] && e4[0] == e[4]);
    assert(e4.drop_first().len() == 0);
    reveal_with_fuel(first_country, 6);
}

/// Without a list an IPv6 address is private where it is the loopback address, link-local or
/// unique local, and has no country elsewhere.
#[verifier::spinoff_prover]
pub proof fn law_private_v6_addresses_are_known(ip: u128)
    ensures
        country_of(builtin_ranges(), IpAddr::V6(ip)) == (if ip == 1
            || 0xfe80_0000_0000_0000_0000_0000_0000_0000 <= ip
            <= 0xfebf_ffff_ffff_ffff_ffff_ffff_ffff_ffff
            || 0xfc00_0000_0000_0000_0000_0000_0000_0000 <= ip
            <= 0xfdff_ffff_ffff_ffff_ffff_ffff_ffff_ffff {
            Some("PRIVATE"@)
        } else {
            None
        }),
{
    assert((ip >> 0u32 == 1u128 >> 0u32) == (ip == 1)) by (bit_vector);
    assert((ip >> 118u32 == 0xfe80_0000_0000_0000_0000_0000_0000_0000u128 >> 118u32) == (
    0xfe80_0000_0000_0000_0000_0000_0000_0000 <= ip <= 0xfebf_ffff_ffff_ffff_ffff_ffff_ffff_ffff))
        by (bit_vector);
    assert((ip >> 121u32 == 0xfc00_0000_0000_0000_0000_0000_0000_0000u128 >> 121u32) == (
    0xfc00_0000_0000_0000_0000_0000_0000_0000 <= ip <= 0xfdff_ffff_ffff_ffff_ffff_ffff_ffff_ffff))
        by (bit_vector);
    let e = builtin_ranges().v6;
    let e1 = e.drop_first();
    let e2 = e1.drop_first();
    assert(e1[0] == e[1] && e2[0] == e[2]);
    assert(e2.drop_first().len() == 0);
    reveal_with_fuel(first_country, 4);
}

/// A line of a list gives a range and a country, which is kept in capitals; blank lines and
/// those that start with a number sign give nothing.
pub proof fn law_lines_give_ranges(lines: Seq<Seq<char>>, line: Seq<char>, ip: IpAddr, p: u8)
    ensures
        text::trimmed(line).len() == 0 || text::trimmed(line)[0] == '#' ==> loaded(lines.push(line))
            == loaded(lines),
        ({
            let w = text::words(text::trimmed(line));
            let m = loaded(lines);
            let n = loaded(lines.push(line));
            text::trimmed(line).len() > 0 && text::trimmed(line)[0] != '#' && w.len() >= 2
                && range_of(w[0]) == Some((ip, p)) ==> match ip {
                IpAddr::V4(v) => n.v6 == m.v6 && n.v4.len() == m.v4.len() + 1 && n.v4.last().addr
                    == v && n.v4.last().prefix_len == p && n.v4.last().country == text::raised(w[1]),
                IpAddr::V6(v) => n.v4 == m.v4 && n.v6.len() == m.v6.len() + 1 && n.v6.last().addr
                    == v && n.v6.last().prefix_len == p && n.v6.last().country == text::raised(w[1]),
            }
        }),
{
    assert(lines.push(line).drop_last() =~= lines);
}

} // verus!
