//! IP addresses as plain numbers, with their textual forms.

use crate::crypto;
use crate::text;
use vstd::prelude::*;

verus! {

broadcast use {
    vstd::seq::group_seq_axioms,
    vstd::slice::group_slice_axioms,
    vstd::string::group_string_axioms,
    vstd::std_specs::vec::group_vec_axioms,
};

/// An IP address: its bits as a number, the first byte the most significant.
#[derive(Debug, Clone, Copy, PartialEq, Eq, Structural)]
pub enum IpAddr {
    V4(u32),
    V6(u128),
}

/// An IP address with a port.
#[derive(Debug, Clone, Copy, PartialEq, Eq, Structural)]
pub struct SocketAddr {
    pub ip: IpAddr,
    pub port: u16,
}

// ---------------------------------------------------------------------------
// Parsing
// ---------------------------------------------------------------------------

/// A part of a dotted address: one to three decimal digits without a leading
/// zero, at most 255.
pub open spec fn octet_value(s: Seq<char>) -> Option<nat> {
    if 1 <= s.len() <= 3 && text::all_digits(s, 10) && (s.len() > 1 ==> s[0] != '0') && text::digits_value(s, 10)
        <= 255 {
        Some(text::digits_value(s, 10))
    } else {
        None
    }
}

/// The number that four octets make.
pub open spec fn v4_number(a: nat, b: nat, c: nat, d: nat) -> nat {
    a * 0x100_0000 + b * 0x1_0000 + c * 0x100 + d
}

/// The address that a dotted text writes: four octets between dots.
pub open spec fn v4_value(s: Seq<char>) -> Option<nat> {
    let p = text::split_on(s, '.');
    if p.len() == 4 && octet_value(p[0]) is Some && octet_value(p[1]) is Some && octet_value(p[2]) is Some
        && octet_value(p[3]) is Some {
        Some(
            v4_number(
                octet_value(p[0])->0,
                octet_value(p[1])->0,
                octet_value(p[2])->0,
                octet_value(p[3])->0,
            ),
        )
    } else {
        None
    }
}

/// A group of an IPv6 address: one to four hexadecimal digits.
pub open spec fn group_value(s: Seq<char>) -> Option<nat> {
    if 1 <= s.len() <= 4 && text::all_digits(s, 16) {
        Some(text::digits_value(s, 16))
    } else {
        None
    }
}

/// The groups that pieces between colons write. Where `dotted` says so, the
/// last piece may be a dotted IPv4 address, which makes two groups.
pub open spec fn piece_groups(p: Seq<Seq<char>>, dotted: bool) -> Option<Seq<nat>>
    decreases p.len(),
{
    if p.len() == 0 {
        Some(seq![])
    } else if p.len() == 1 && dotted && v4_value(p[0]) is Some {
        Some(seq![v4_value(p[0])->0 / 0x1_0000, v4_value(p[0])->0 % 0x1_0000])
    } else if group_value(p[0]) is Some && piece_groups(p.drop_first(), dotted) is Some {
        Some(seq![group_value(p[0])->0] + piece_groups(p.drop_first(), dotted)->0)
    } else {
        None
    }
}

/// The groups of a part of an IPv6 address; the empty part has none.
pub open spec fn part_groups(s: Seq<char>, dotted: bool) -> Option<Seq<nat>> {
    if s.len() == 0 {
        Some(seq![])
    } else {
        piece_groups(text::split_on(s, ':'), dotted)
    }
}

/// The position of the first double colon, or the length of the text.
pub open spec fn gap_index(s: Seq<char>) -> int
    decreases s.len(),
{
    if s.len() < 2 {
        s.len() as int
    } else if s[0] == ':' && s[1] == ':' {
        0
    } else {
        1 + gap_index(s.drop_first())
    }
}

/// The eight groups that an IPv6 text writes. A double colon stands for at
/// least one group of zeros; only the end of the text may be dotted.
pub open spec fn v6_groups(s: Seq<char>) -> Option<Seq<nat>> {
    let i = gap_index(s);
    if i < s.len() {
        let head = part_groups(s.take(i), false);
        let tail = part_groups(s.skip(i + 2), true);
        if head is Some && tail is Some && head->0.len() + tail->0.len() <= 7 {
            Some(
                head->0 + Seq::new((8 - head->0.len() - tail->0.len()) as nat, |k: int| 0nat)
                    + tail->0,
            )
        } else {
            None
        }
    } else {
        let all = part_groups(s, true);
        if all is Some && all->0.len() == 8 {
            all
        } else {
            None
        }
    }
}

/// The number that eight groups make.
pub open spec fn v6_number(g: Seq<nat>) -> nat {
    g[0] * 0x1_0000_0000_0000_0000_0000_0000_0000 + g[1] * 0x1_0000_0000_0000_0000_0000_0000 + g[2]
        * 0x1_0000_0000_0000_0000_0000 + g[3] * 0x1_0000_0000_0000_0000 + g[4] * 0x1_0000_0000_0000
        + g[5] * 0x1_0000_0000 + g[6] * 0x1_0000 + g[7]
}

/// The address that a text writes, if it is an IPv4 or an IPv6 address.
pub open spec fn ip_of(s: Seq<char>) -> Option<IpAddr> {
    if v4_value(s) is Some {
        Some(IpAddr::V4(v4_value(s)->0 as u32))
    } else if v6_groups(s) is Some {
        Some(IpAddr::V6(v6_number(v6_groups(s)->0) as u128))
    } else {
        None
    }
}

proof fn lemma_case_digits(s: Seq<char>, base: nat)
    ensures
        text::all_digits(text::ascii_lowercase(s), base) == text::all_digits(s, base),
        text::digits_value(text::ascii_lowercase(s), base) == text::digits_value(s, base),
    decreases s.len(),
{
    let t = text::ascii_lowercase(s);
    assert forall|k: int| 0 <= k < s.len() implies #[trigger] text::digit_value(t[k])
        == text::digit_value(s[k]) by {
        assert(t[k] == text::ascii_lower(s[k]));
    }
    if text::all_digits(t, base) {
        assert forall|k: int| 0 <= k < s.len() implies #[trigger] text::digit_value(s[k]) is Some
            && text::digit_value(s[k])->0 < base by {
            assert(text::digit_value(t[k]) is Some);
        }
    }
    if s.len() > 0 {
        lemma_case_digits(s.drop_last(), base);
        assert(t.drop_last() =~= text::ascii_lowercase(s.drop_last()));
        assert(t.last() == text::ascii_lower(s.last()));
    }
}

proof fn lemma_case_index(s: Seq<char>, c: char)
    requires
        c == '.' || c == ':',
    ensures
        text::first_index(text::ascii_lowercase(s), c) == text::first_index(s, c),
    decreases s.len(),
{
    let t = text::ascii_lowercase(s);
    if s.len() > 0 {
        assert(t[0] == text::ascii_lower(s[0]));
        assert(t.drop_first() =~= text::ascii_lowercase(s.drop_first()));
        lemma_case_index(s.drop_first(), c);
    }
}

/// Pieces with their ASCII letters in lower case.
spec fn lower_pieces(p: Seq<Seq<char>>) -> Seq<Seq<char>> {
    p.map_values(|s: Seq<char>| text::ascii_lowercase(s))
}

proof fn lemma_case_split(s: Seq<char>, c: char)
    requires
        c == '.' || c == ':',
    ensures
        text::split_on(text::ascii_lowercase(s), c) == lower_pieces(text::split_on(s, c)),
    decreases s.len(),
{
    let t = text::ascii_lowercase(s);
    let i = text::first_index(s, c);
    lemma_case_index(s, c);
    text::lemma_first_index(s, c);
    if i < s.len() {
        lemma_case_split(s.skip(i + 1), c);
        assert(t.take(i) =~= text::ascii_lowercase(s.take(i)));
        assert(t.skip(i + 1) =~= text::ascii_lowercase(s.skip(i + 1)));
        assert(text::split_on(t, c) =~= lower_pieces(text::split_on(s, c)));
    } else {
        assert(text::split_on(t, c) =~= lower_pieces(text::split_on(s, c)));
    }
}

proof fn lemma_case_v4(s: Seq<char>)
    ensures
        v4_value(text::ascii_lowercase(s)) == v4_value(s),
{
    lemma_case_split(s, '.');
    let p = text::split_on(s, '.');
    assert forall|i: int| 0 <= i < p.len() implies #[trigger] octet_value(lower_pieces(p)[i])
        == octet_value(p[i]) by {
        lemma_case_digits(p[i], 10);
        assert(p[i].len() > 0 ==> lower_pieces(p)[i][0] == text::ascii_lower(p[i][0]));
    }
    if p.len() == 4 {
        assert(octet_value(lower_pieces(p)[0]) == octet_value(p[0]));
        assert(octet_value(lower_pieces(p)[1]) == octet_value(p[1]));
        assert(octet_value(lower_pieces(p)[2]) == octet_value(p[2]));
        assert(octet_value(lower_pieces(p)[3]) == octet_value(p[3]));
    }
}

proof fn lemma_case_pieces(p: Seq<Seq<char>>, dotted: bool)
    ensures
        piece_groups(lower_pieces(p), dotted) == piece_groups(p, dotted),
    decreases p.len(),
{
    if p.len() > 0 {
        lemma_case_v4(p[0]);
        lemma_case_digits(p[0], 16);
        lemma_case_pieces(p.drop_first(), dotted);
        assert(lower_pieces(p).drop_first() =~= lower_pieces(p.drop_first()));
        assert(group_value(lower_pieces(p)[0]) == group_value(p[0]));
    }
}

proof fn lemma_case_part(s: Seq<char>, dotted: bool)
    ensures
        part_groups(text::ascii_lowercase(s), dotted) == part_groups(s, dotted),
{
    lemma_case_split(s, ':');
    lemma_case_pieces(text::split_on(s, ':'), dotted);
}

proof fn lemma_case_gap(s: Seq<char>)
    ensures
        gap_index(text::ascii_lowercase(s)) == gap_index(s),
        0 <= gap_index(s) <= s.len(),
        gap_index(s) < s.len() ==> gap_index(s) + 2 <= s.len(),
    decreases s.len(),
{
    let t = text::ascii_lowercase(s);
    if s.len() >= 2 {
        assert(t[0] == text::ascii_lower(s[0]));
        assert(t[1] == text::ascii_lower(s[1]));
        assert(t.drop_first() =~= text::ascii_lowercase(s.drop_first()));
        lemma_case_gap(s.drop_first());
    }
}

/// The character may stand in an address: a digit, a dot or a colon.
pub open spec fn in_address(c: char) -> bool {
    text::digit_value(c) is Some || c == '.' || c == ':'
}

/// Every character may stand in an address.
pub open spec fn of_address(s: Seq<char>) -> bool {
    forall|i: int| 0 <= i < s.len() ==> in_address(#[trigger] s[i])
}

proof fn lemma_digits_of_address(s: Seq<char>, base: nat)
    requires
        text::all_digits(s, base),
    ensures
        of_address(s),
{
    assert forall|k: int| 0 <= k < s.len() implies in_address(#[trigger] s[k]) by {
        assert(text::digit_value(s[k]) is Some);
    }
}

/// A text whose pieces are of such characters is so itself.
proof fn lemma_pieces_of_address(s: Seq<char>, c: char)
    requires
        c == '.' || c == ':',
        forall|i: int|
            0 <= i < text::split_on(s, c).len() ==> of_address(
                #[trigger] text::split_on(s, c)[i],
            ),
    ensures
        of_address(s),
    decreases s.len(),
{
    let p = text::split_on(s, c);
    let i = text::first_index(s, c);
    text::lemma_first_index(s, c);
    assert(of_address(p[0]));
    if i < s.len() {
        let rest = s.skip(i + 1);
        let q = text::split_on(rest, c);
        assert forall|k: int| 0 <= k < q.len() implies of_address(
            #[trigger] q[k],
        ) by {
            assert(p[k + 1] == q[k]);
        }
        lemma_pieces_of_address(rest, c);
        assert forall|k: int| 0 <= k < s.len() implies in_address(#[trigger] s[k]) by {
            if k < i {
                assert(p[0][k] == s[k]);
            } else if k > i {
                assert(rest[k - i - 1] == s[k]);
            }
        }
    }
}

proof fn lemma_v4_of_address(s: Seq<char>)
    requires
        v4_value(s) is Some,
    ensures
        of_address(s),
{
    let p = text::split_on(s, '.');
    lemma_digits_of_address(p[0], 10);
    lemma_digits_of_address(p[1], 10);
    lemma_digits_of_address(p[2], 10);
    lemma_digits_of_address(p[3], 10);
    lemma_pieces_of_address(s, '.');
}

proof fn lemma_groups_of_address(p: Seq<Seq<char>>, dotted: bool, i: int)
    requires
        piece_groups(p, dotted) is Some,
        0 <= i < p.len(),
    ensures
        of_address(p[i]),
    decreases p.len(),
{
    if p.len() == 1 && dotted && v4_value(p[0]) is Some {
        lemma_v4_of_address(p[0]);
    } else if i == 0 {
        lemma_digits_of_address(p[0], 16);
    } else {
        lemma_groups_of_address(p.drop_first(), dotted, i - 1);
    }
}

proof fn lemma_part_of_address(s: Seq<char>, dotted: bool)
    requires
        part_groups(s, dotted) is Some,
    ensures
        of_address(s),
{
    if s.len() > 0 {
        let p = text::split_on(s, ':');
        assert forall|i: int| 0 <= i < p.len() implies of_address(
            #[trigger] p[i],
        ) by {
            lemma_groups_of_address(p, dotted, i);
        }
        lemma_pieces_of_address(s, ':');
    }
}

proof fn lemma_gap(s: Seq<char>)
    ensures
        0 <= gap_index(s) <= s.len(),
        gap_index(s) < s.len() ==> gap_index(s) + 2 <= s.len() && s[gap_index(s)] == ':' && s[
        gap_index(s) + 1] == ':',
    decreases s.len(),
{
    if s.len() >= 2 {
        lemma_gap(s.drop_first());
    }
}

/// An address is written in digits, dots and colons.
pub proof fn lemma_ip_of_address(s: Seq<char>)
    requires
        ip_of(s) is Some,
    ensures
        of_address(s),
{
    if v4_value(s) is Some {
        lemma_v4_of_address(s);
    } else {
        let i = gap_index(s);
        lemma_gap(s);
        if i < s.len() {
            let head = s.take(i);
            let tail = s.skip(i + 2);
            lemma_part_of_address(head, false);
            lemma_part_of_address(tail, true);
            assert forall|k: int| 0 <= k < s.len() implies in_address(
                #[trigger] s[k],
            ) by {
                if k < i {
                    assert(head[k] == s[k]);
                } else if k > i + 1 {
                    assert(tail[k - i - 2] == s[k]);
                }
            }
        } else {
            lemma_part_of_address(s, true);
        }
    }
}

/// The case of letters does not matter in an address.
pub proof fn lemma_case_ip(s: Seq<char>)
    ensures
        ip_of(text::ascii_lowercase(s)) == ip_of(s),
{
    let t = text::ascii_lowercase(s);
    let i = gap_index(s);
    lemma_case_v4(s);
    lemma_case_gap(s);
    lemma_case_part(s, true);
    if i < s.len() {
        assert(t.take(i) =~= text::ascii_lowercase(s.take(i)));
        assert(t.skip(i + 2) =~= text::ascii_lowercase(s.skip(i + 2)));
        lemma_case_part(s.take(i), false);
        lemma_case_part(s.skip(i + 2), true);
    }
    assert(v6_groups(t) == v6_groups(s));
}

/// A number of at most four digits is small.
proof fn lemma_short_digits(s: Seq<char>, base: nat)
    requires
        base == 10 || base == 16,
        text::all_digits(s, base),
    ensures
        s.len() <= 3 && base == 10 ==> text::digits_value(s, base) < 1000,
        s.len() <= 4 && base == 16 ==> text::digits_value(s, base) < 0x1_0000,
{
    reveal_with_fuel(text::digits_value, 5);
}

/// Reads digits of a base that are known to write a small number.
fn small_number(s: &[char], base: u32) -> (r: Option<u32>)
    requires
        base == 10 && s@.len() <= 3 || base == 16 && s@.len() <= 4,
    ensures
        r is Some == text::all_digits(s@, base as nat),
        r matches Some(v) ==> v == text::digits_value(s@, base as nat) && v < 0x1_0000,
{
    if s.len() == 0 {
        return Some(0);
    }
    if s[0] == '+' {
        assert(text::digit_value(s@[0]) is None);
        return None;
    }
    let r = text::parse_uint(s, base, 0xffff);
    proof {
        assert(text::unsigned_digits(s@) == s@);
        if text::all_digits(s@, base as nat) {
            lemma_short_digits(s@, base as nat);
        }
    }
    match r {
        Some(v) => Some(v as u32),
        None => None,
    }
}

fn parse_octet(s: &[char]) -> (r: Option<u32>)
    ensures
        r is Some == octet_value(s@) is Some,
        r matches Some(v) ==> octet_value(s@) == Some(v as nat) && v <= 255,
{
    if s.len() == 0 || s.len() > 3 || (s.len() > 1 && s[0] == '0') {
        return None;
    }
    match small_number(s, 10) {
        Some(v) => if v <= 255 {
            Some(v)
        } else {
            None
        },
        None => None,
    }
}

/// The IPv4 address that a text writes.
pub fn parse_v4(s: &[char]) -> (r: Option<u32>)
    ensures
        r is Some == v4_value(s@) is Some,
        r matches Some(v) ==> v4_value(s@) == Some(v as nat),
{
    let p = text::split(s, '.');
    assert(text::texts(p@).len() == p@.len());
    if p.len() != 4 {
        return None;
    }
    assert(forall|i: int| 0 <= i < 4 ==> text::texts(p@)[i] == p@[i]@);
    let a = parse_octet(p[0].as_slice());
    let b = parse_octet(p[1].as_slice());
    let c = parse_octet(p[2].as_slice());
    let d = parse_octet(p[3].as_slice());
    match (a, b, c, d) {
        (Some(a), Some(b), Some(c), Some(d)) => Some(
            a * 0x100_0000 + b * 0x1_0000 + c * 0x100 + d,
        ),
        _ => None,
    }
}

/// The groups of a list that was built from machine integers.
pub open spec fn as_nats(g: Seq<u32>) -> Seq<nat> {
    g.map_values(|x: u32| x as nat)
}

fn parse_group(s: &[char]) -> (r: Option<u32>)
    ensures
        r is Some == group_value(s@) is Some,
        r matches Some(v) ==> group_value(s@) == Some(v as nat) && v < 0x1_0000,
{
    if s.len() == 0 || s.len() > 4 {
        return None;
    }
    small_number(s, 16)
}

/// The groups that a part of an IPv6 address writes.
fn parse_part(s: &[char], dotted: bool) -> (r: Option<Vec<u32>>)
    ensures
        r is Some == part_groups(s@, dotted) is Some,
        r matches Some(g) ==> part_groups(s@, dotted) == Some(as_nats(g@)),
        r matches Some(g) ==> forall|k: int| 0 <= k < g@.len() ==> g@[k] < 0x1_0000,
{
    let mut out: Vec<u32> = Vec::new();
    if s.len() == 0 {
        assert(as_nats(out@) =~= seq![]);
        return Some(out);
    }
    let p = text::split(s, ':');
    let ghost pieces = text::texts(p@);
    let mut i: usize = 0;
    proof {
        assert(pieces.skip(0) =~= pieces);
        if piece_groups(pieces, dotted) is Some {
            assert(as_nats(out@) + piece_groups(pieces, dotted)->0 =~= piece_groups(
                pieces,
                dotted,
            )->0);
        }
    }
    while i < p.len()
        invariant
            i <= p@.len(),
            s@.len() > 0,
            pieces == text::texts(p@),
            pieces == text::split_on(s@, ':'),
            pieces.len() == p@.len(),
            part_groups(s@, dotted) is Some == piece_groups(pieces.skip(i as int), dotted) is Some,
            part_groups(s@, dotted) is Some ==> part_groups(s@, dotted)->0 == as_nats(out@)
                + piece_groups(pieces.skip(i as int), dotted)->0,
            forall|k: int| 0 <= k < out@.len() ==> out@[k] < 0x1_0000,
        decreases p@.len() - i,
    {
        let ghost rest = pieces.skip(i as int);
        assert(rest[0] == p@[i as int]@);
        assert(rest.drop_first() =~= pieces.skip(i + 1));
        if i + 1 == p.len() && dotted {
            if let Some(v) = parse_v4(p[i].as_slice()) {
                let hi: u32 = v / 0x1_0000;
                let lo: u32 = v % 0x1_0000;
                let ghost before = as_nats(out@);
                out.push(hi);
                out.push(lo);
                assert(as_nats(out@) =~= before + seq![hi as nat, lo as nat]);
                return Some(out);
            }
        }
        match parse_group(p[i].as_slice()) {
            None => {
                return None;
            },
            Some(v) => {
                let ghost before = as_nats(out@);
                out.push(v);
                proof {
                    assert(as_nats(out@) =~= before.push(v as nat));
                    if piece_groups(rest.drop_first(), dotted) is Some {
                        let tail = piece_groups(rest.drop_first(), dotted)->0;
                        assert(before + (seq![v as nat] + tail) =~= before.push(v as nat) + tail);
                    }
                }
                i += 1;
            },
        }
    }
    proof {
        assert(pieces.skip(i as int) =~= seq![]);
        assert(as_nats(out@) + seq![] =~= as_nats(out@));
    }
    Some(out)
}

proof fn lemma_gap_index(s: Seq<char>, i: int)
    requires
        0 <= i,
        i + 1 < s.len() && s[i] == ':' && s[i + 1] == ':' || i == s.len(),
        forall|k: int| 0 <= k < i && k + 1 < s.len() ==> !(#[trigger] s[k] == ':' && s[k + 1] == ':'),
    ensures
        gap_index(s) == i,
    decreases i,
{
    if i > 0 && s.len() >= 2 {
        let t = s.drop_first();
        assert(!(s[0] == ':' && s[1] == ':'));
        assert forall|k: int| 0 <= k < i - 1 && k + 1 < t.len() implies !(#[trigger] t[k] == ':' && t[k
            + 1] == ':') by {
            assert(t[k] == s[k + 1]);
            assert(t[k + 1] == s[k + 2]);
        }
        lemma_gap_index(t, i - 1);
    }
}

/// The position of the first double colon, or the length of the text.
fn find_gap(s: &[char]) -> (r: usize)
    ensures
        r == gap_index(s@),
        r <= s@.len(),
        r < s@.len() ==> r + 1 < s@.len(),
{
    let n: usize = s.len();
    let mut i: usize = 0;
    while i < n
        invariant
            i <= n,
            n == s@.len(),
            forall|k: int|
                0 <= k < i && k + 1 < s@.len() ==> !(#[trigger] s@[k] == ':' && s@[k + 1] == ':'),
        decreases n - i,
    {
        if i + 1 < n && s[i] == ':' && s[i + 1] == ':' {
            proof {
                lemma_gap_index(s@, i as int);
            }
            return i;
        }
        i += 1;
    }
    proof {
        lemma_gap_index(s@, n as int);
    }
    n
}

/// The IPv6 address that a text writes.
pub fn parse_v6(s: &[char]) -> (r: Option<u128>)
    ensures
        r is Some == v6_groups(s@) is Some,
        r matches Some(v) ==> v == v6_number(v6_groups(s@)->0),
{
    let i: usize = find_gap(s);
    let mut g: Vec<u32> = Vec::new();
    if i < s.len() {
        let head_text = vstd::slice::slice_subrange(s, 0, i);
        let tail_text = vstd::slice::slice_subrange(s, i + 2, s.len());
        assert(head_text@ =~= s@.take(i as int));
        assert(tail_text@ =~= s@.skip(i + 2));
        let head = match parse_part(head_text, false) {
            Some(h) => h,
            None => {
                return None;
            },
        };
        let tail = match parse_part(tail_text, true) {
            Some(t) => t,
            None => {
                return None;
            },
        };
        if head.len() > 7 || tail.len() > 7 || head.len() + tail.len() > 7 {
            return None;
        }
        let zeros: usize = 8 - head.len() - tail.len();
        let mut k: usize = 0;
        while k < 8
            invariant
                k <= 8,
                g@.len() == k,
                head@.len() + tail@.len() <= 7,
                zeros == 8 - head@.len() - tail@.len(),
                forall|j: int| 0 <= j < head@.len() ==> head@[j] < 0x1_0000,
                forall|j: int| 0 <= j < tail@.len() ==> tail@[j] < 0x1_0000,
                forall|j: int| #![trigger g@[j]]
                    0 <= j < k ==> g@[j] == (if j < head@.len() {
                        head@[j]
                    } else if j < head@.len() + zeros {
                        0u32
                    } else {
                        tail@[j - head@.len() - zeros]
                    }) && g@[j] < 0x1_0000,
            decreases 8 - k,
        {
            let v: u32 = if k < head.len() {
                head[k]
            } else if k < head.len() + zeros {
                0
            } else {
                tail[k - head.len() - zeros]
            };
            g.push(v);
            k += 1;
        }
        assert(as_nats(g@) =~= v6_groups(s@)->0);
    } else {
        g = match parse_part(s, true) {
            Some(a) => a,
            None => {
                return None;
            },
        };
        if g.len() != 8 {
            return None;
        }
    }
    assert(as_nats(g@) == v6_groups(s@)->0);
    assert(forall|j: int| 0 <= j < 8 ==> #[trigger] as_nats(g@)[j] == g@[j]);
    Some(
        g[0] as u128 * 0x1_0000_0000_0000_0000_0000_0000_0000
            + g[1] as u128 * 0x1_0000_0000_0000_0000_0000_0000
            + g[2] as u128 * 0x1_0000_0000_0000_0000_0000
            + g[3] as u128 * 0x1_0000_0000_0000_0000
            + g[4] as u128 * 0x1_0000_0000_0000
            + g[5] as u128 * 0x1_0000_0000
            + g[6] as u128 * 0x1_0000
            + g[7] as u128,
    )
}

/// The IP address that a text writes.
pub fn parse_ip_chars(s: &[char]) -> (r: Option<IpAddr>)
    ensures
        r == ip_of(s@),
{
    match parse_v4(s) {
        Some(v) => Some(IpAddr::V4(v)),
        None => match parse_v6(s) {
            Some(v) => Some(IpAddr::V6(v)),
            None => None,
        },
    }
}

/// The IP address that a string writes.
pub fn parse_ip(s: &str) -> (r: Option<IpAddr>)
    ensures
        r == ip_of(s@),
{
    let c = text::chars_of(s);
    parse_ip_chars(c.as_slice())
}

// ---------------------------------------------------------------------------
// Formatting
// ---------------------------------------------------------------------------

/// The dotted text of an IPv4 address.
pub open spec fn v4_text(ip: u32) -> Seq<char> {
    text::decimal((ip / 0x100_0000) as nat) + seq!['.'] + text::decimal(
        (ip / 0x1_0000 % 0x100) as nat,
    ) + seq!['.'] + text::decimal((ip / 0x100 % 0x100) as nat) + seq!['.'] + text::decimal(
        (ip % 0x100) as nat,
    )
}

/// A number in lower-case hexadecimal, without leading zeros.
pub open spec fn hex_numeral(n: nat) -> Seq<char>
    decreases n,
{
    if n < 16 {
        seq![crypto::hex_digit(n)]
    } else {
        hex_numeral(n / 16).push(crypto::hex_digit(n % 16))
    }
}

/// The eight groups of an IPv6 address.
pub open spec fn groups_of(ip: u128) -> Seq<nat> {
    seq![
        (ip / 0x1_0000_0000_0000_0000_0000_0000_0000) as nat,
        (ip / 0x1_0000_0000_0000_0000_0000_0000 % 0x1_0000) as nat,
        (ip / 0x1_0000_0000_0000_0000_0000 % 0x1_0000) as nat,
        (ip / 0x1_0000_0000_0000_0000 % 0x1_0000) as nat,
        (ip / 0x1_0000_0000_0000 % 0x1_0000) as nat,
        (ip / 0x1_0000_0000 % 0x1_0000) as nat,
        (ip / 0x1_0000 % 0x1_0000) as nat,
        (ip % 0x1_0000) as nat,
    ]
}

/// The length of the run of zero groups that begins at `i`.
pub open spec fn zero_run(g: Seq<nat>, i: int) -> nat
    decreases g.len() - i,
{
    if 0 <= i < g.len() && g[i] == 0 {
        1 + zero_run(g, i + 1)
    } else {
        0
    }
}

/// Start and length of the first longest run of zero groups among those that
/// begin before `n`.
pub open spec fn longest_zero_run(g: Seq<nat>, n: nat) -> (int, nat)
    decreases n,
{
    if n == 0 {
        (0, 0)
    } else {
        let best = longest_zero_run(g, (n - 1) as nat);
        let r = zero_run(g, n - 1);
        if r > best.1 {
            (n - 1, r)
        } else {
            best
        }
    }
}

/// Groups in hexadecimal with colons between them.
pub open spec fn groups_text(g: Seq<nat>) -> Seq<char>
    decreases g.len(),
{
    if g.len() == 0 {
        seq![]
    } else if g.len() == 1 {
        hex_numeral(g[0])
    } else {
        groups_text(g.drop_last()) + seq![':'] + hex_numeral(g.last())
    }
}

/// The text of an IPv6 address: an IPv4-mapped address ends dotted; of any
/// other the first longest run of two or more zero groups becomes a double
/// colon.
pub open spec fn v6_text(ip: u128) -> Seq<char> {
    let g = groups_of(ip);
    let run = longest_zero_run(g, 8);
    if ip / 0x1_0000_0000 == 0xffff {
        seq![':', ':', 'f', 'f', 'f', 'f', ':'] + v4_text((ip % 0x1_0000_0000) as u32)
    } else if run.1 > 1 {
        groups_text(g.take(run.0)) + seq![':', ':'] + groups_text(g.skip(run.0 + run.1))
    } else {
        groups_text(g)
    }
}

/// The text of an IP address.
pub open spec fn ip_text(ip: IpAddr) -> Seq<char> {
    match ip {
        IpAddr::V4(v) => v4_text(v),
        IpAddr::V6(v) => v6_text(v),
    }
}

/// The dotted text of an IPv4 address.
pub fn format_v4(ip: u32) -> (r: Vec<char>)
    ensures
        r@ == v4_text(ip),
{
    let mut out = text::decimal_text((ip / 0x100_0000) as u64);
    out.push('.');
    let b = text::decimal_text((ip / 0x1_0000 % 0x100) as u64);
    text::append_chars(&mut out, b.as_slice());
    out.push('.');
    let c = text::decimal_text((ip / 0x100 % 0x100) as u64);
    text::append_chars(&mut out, c.as_slice());
    out.push('.');
    let d = text::decimal_text((ip % 0x100) as u64);
    text::append_chars(&mut out, d.as_slice());
    assert(out@ =~= v4_text(ip));
    out
}

/// Appends a number in lower-case hexadecimal.
pub fn push_hex(out: &mut Vec<char>, n: u32)
    ensures
        final(out)@ == old(out)@ + hex_numeral(n as nat),
    decreases n,
{
    if n >= 16 {
        push_hex(out, n / 16);
    }
    let d: u8 = (n % 16) as u8;
    let c: char = if d < 10 { (d + 48) as char } else { (d - 10 + 97) as char };
    assert(c == crypto::hex_digit((n % 16) as nat));
    out.push(c);
    assert(out@ =~= old(out)@ + hex_numeral(n as nat));
}

fn push_groups(out: &mut Vec<char>, g: &[u32])
    ensures
        final(out)@ == old(out)@ + groups_text(as_nats(g@)),
{
    let mut i: usize = 0;
    assert(out@ =~= old(out)@ + groups_text(as_nats(g@.take(0))));
    while i < g.len()
        invariant
            i <= g@.len(),
            out@ == old(out)@ + groups_text(as_nats(g@.take(i as int))),
        decreases g@.len() - i,
    {
        let ghost prefix = as_nats(g@.take(i as int));
        let ghost next = as_nats(g@.take(i + 1));
        proof {
            assert(next =~= prefix.push(g@[i as int] as nat));
            assert(next.drop_last() =~= prefix);
        }
        if i > 0 {
            out.push(':');
        }
        push_hex(out, g[i]);
        assert(out@ =~= old(out)@ + groups_text(next));
        i += 1;
    }
    assert(g@.take(i as int) =~= g@);
}

fn run_length(g: &Vec<u32>, i: usize) -> (r: usize)
    requires
        i <= g@.len(),
    ensures
        r == zero_run(as_nats(g@), i as int),
        i + r <= g@.len(),
    decreases g@.len() - i,
{
    if i < g.len() && g[i] == 0 {
        1 + run_length(g, i + 1)
    } else {
        0
    }
}

/// The text of an IPv6 address.
pub fn format_v6(ip: u128) -> (r: Vec<char>)
    ensures
        r@ == v6_text(ip),
{
    let mut out: Vec<char> = Vec::new();
    if ip / 0x1_0000_0000 == 0xffff {
        out.push(':');
        out.push(':');
        out.push('f');
        out.push('f');
        out.push('f');
        out.push('f');
        out.push(':');
        let v4 = format_v4((ip % 0x1_0000_0000) as u32);
        text::append_chars(&mut out, v4.as_slice());
        assert(out@ =~= v6_text(ip));
        return out;
    }
    let g: Vec<u32> = vec![
        (ip / 0x1_0000_0000_0000_0000_0000_0000_0000) as u32,
        (ip / 0x1_0000_0000_0000_0000_0000_0000 % 0x1_0000) as u32,
        (ip / 0x1_0000_0000_0000_0000_0000 % 0x1_0000) as u32,
        (ip / 0x1_0000_0000_0000_0000 % 0x1_0000) as u32,
        (ip / 0x1_0000_0000_0000 % 0x1_0000) as u32,
        (ip / 0x1_0000_0000 % 0x1_0000) as u32,
        (ip / 0x1_0000 % 0x1_0000) as u32,
        (ip % 0x1_0000) as u32,
    ];
    assert(as_nats(g@) =~= groups_of(ip));
    let mut start: usize = 0;
    let mut len: usize = 0;
    let mut i: usize = 0;
    while i < 8
        invariant
            i <= 8,
            g@.len() == 8,
            start + len <= 8,
            longest_zero_run(as_nats(g@), i as nat) == (start as int, len as nat),
        decreases 8 - i,
    {
        let r: usize = run_length(&g, i);
        if r > len {
            start = i;
            len = r;
        }
        i += 1;
    }
    if len > 1 {
        let head = vstd::slice::slice_subrange(g.as_slice(), 0, start);
        let tail = vstd::slice::slice_subrange(g.as_slice(), start + len, 8);
        push_groups(&mut out, head);
        out.push(':');
        out.push(':');
        push_groups(&mut out, tail);
        proof {
            assert(as_nats(head@) =~= groups_of(ip).take(start as int));
            assert(as_nats(tail@) =~= groups_of(ip).skip(start + len));
            assert(out@ =~= v6_text(ip));
        }
    } else {
        push_groups(&mut out, g.as_slice());
        assert(out@ =~= v6_text(ip));
    }
    out
}

/// The text of an IP address.
pub fn format_ip(ip: IpAddr) -> (r: Vec<char>)
    ensures
        r@ == ip_text(ip),
{
    match ip {
        IpAddr::V4(v) => format_v4(v),
        IpAddr::V6(v) => format_v6(v),
    }
}

/// The string of an IP address.
pub fn ip_string(ip: IpAddr) -> (r: String)
    ensures
        r@ == ip_text(ip),
{
    let c = format_ip(ip);
    text::string_of(c.as_slice())
}

/// A number as bytes, the most significant first.
pub open spec fn be_bytes(n: nat, len: nat) -> Seq<u8>
    decreases len,
{
    if len == 0 {
        seq![]
    } else {
        be_bytes(n / 256, (len - 1) as nat).push((n % 256) as u8)
    }
}

/// The number that bytes make, the most significant first.
pub open spec fn be_value(b: Seq<u8>) -> nat
    decreases b.len(),
{
    if b.len() == 0 {
        0
    } else {
        be_value(b.drop_last()) * 256 + b.last() as nat
    }
}

pub proof fn lemma_be_bytes_len(n: nat, len: nat)
    ensures
        be_bytes(n, len).len() == len,
    decreases len,
{
    if len > 0 {
        lemma_be_bytes_len(n / 256, (len - 1) as nat);
    }
}

/// Appends a number as bytes, the most significant first.
pub fn push_be(out: &mut Vec<u8>, n: u128, len: usize)
    ensures
        final(out)@ == old(out)@ + be_bytes(n as nat, len as nat),
    decreases len,
{
    if len > 0 {
        push_be(out, n / 256, len - 1);
        out.push((n % 256) as u8);
    }
    assert(out@ =~= old(out)@ + be_bytes(n as nat, len as nat));
}

/// The address that four or sixteen octets write.
pub open spec fn octets_ip(b: Seq<u8>) -> IpAddr {
    if b.len() == 4 {
        IpAddr::V4(be_value(b) as u32)
    } else {
        IpAddr::V6(be_value(b) as u128)
    }
}

proof fn lemma_be_value_bound(b: Seq<u8>)
    ensures
        be_value(b) < vstd::arithmetic::power::pow(256, b.len()),
    decreases b.len(),
{
    vstd::arithmetic::power::lemma_pow0(256);
    if b.len() > 0 {
        lemma_be_value_bound(b.drop_last());
        vstd::arithmetic::power::lemma_pow_adds(256, (b.len() - 1) as nat, 1);
        vstd::arithmetic::power::lemma_pow1(256);
        let p = vstd::arithmetic::power::pow(256, (b.len() - 1) as nat);
        let v = be_value(b.drop_last()) as int;
        assert(v * 256 + 255 < p * 256) by (nonlinear_arith)
            requires
                v < p,
        ;
    }
}

/// The powers that bound numbers of one to sixteen bytes.
pub proof fn lemma_powers_of_256()
    ensures
        vstd::arithmetic::power::pow(256, 1) == 0x100,
        vstd::arithmetic::power::pow(256, 2) == 0x1_0000,
        vstd::arithmetic::power::pow(256, 4) == 0x1_0000_0000,
        vstd::arithmetic::power::pow(256, 8) == 0x1_0000_0000_0000_0000,
        vstd::arithmetic::power::pow(256, 16) == u128::MAX + 1,
{
    vstd::arithmetic::power::lemma_pow1(256);
    vstd::arithmetic::power::lemma_pow_adds(256, 1, 1);
    vstd::arithmetic::power::lemma_pow_adds(256, 2, 2);
    vstd::arithmetic::power::lemma_pow_adds(256, 4, 4);
    vstd::arithmetic::power::lemma_pow_adds(256, 8, 8);
    assert(0x100 * 0x100 == 0x1_0000);
    assert(0x1_0000 * 0x1_0000 == 0x1_0000_0000);
    assert(0x1_0000_0000 * 0x1_0000_0000 == 0x1_0000_0000_0000_0000);
    assert(0x1_0000_0000_0000_0000 * 0x1_0000_0000_0000_0000 == u128::MAX + 1);
}

/// Bytes that number at most sixteen make a number of 128 bits.
pub proof fn lemma_be_value_fits(b: Seq<u8>)
    ensures
        b.len() <= 2 ==> be_value(b) < 0x1_0000,
        b.len() <= 4 ==> be_value(b) < 0x1_0000_0000,
        b.len() <= 8 ==> be_value(b) < 0x1_0000_0000_0000_0000,
        b.len() <= 16 ==> be_value(b) <= u128::MAX,
{
    lemma_be_value_bound(b);
    lemma_powers_of_256();
    if b.len() <= 2 {
        vstd::arithmetic::power::lemma_pow_increases(256, b.len(), 2);
    }
    if b.len() <= 4 {
        vstd::arithmetic::power::lemma_pow_increases(256, b.len(), 4);
    }
    if b.len() <= 8 {
        vstd::arithmetic::power::lemma_pow_increases(256, b.len(), 8);
    }
    if b.len() <= 16 {
        vstd::arithmetic::power::lemma_pow_increases(256, b.len(), 16);
    }
}

/// The number that at most sixteen bytes make, the most significant first.
pub fn read_be(b: &[u8]) -> (r: u128)
    requires
        b@.len() <= 16,
    ensures
        r == be_value(b@),
{
    let mut acc: u128 = 0;
    let mut i: usize = 0;
    while i < b.len()
        invariant
            i <= b@.len() <= 16,
            acc == be_value(b@.take(i as int)),
        decreases b@.len() - i,
    {
        proof {
            assert(b@.take(i + 1).drop_last() =~= b@.take(i as int));
            lemma_be_value_fits(b@.take(i + 1));
        }
        acc = acc * 256 + b[i] as u128;
        i += 1;
    }
    assert(b@.take(i as int) =~= b@);
    acc
}

/// A number of that many bytes is read back as it was written.
pub proof fn lemma_be_round_trip(n: nat, len: nat)
    requires
        n < vstd::arithmetic::power::pow(256, len),
    ensures
        be_value(be_bytes(n, len)) == n,
    decreases len,
{
    vstd::arithmetic::power::lemma_pow0(256);
    if len > 0 {
        let m = (len - 1) as nat;
        vstd::arithmetic::power::lemma_pow_adds(256, m, 1);
        vstd::arithmetic::power::lemma_pow1(256);
        let p = vstd::arithmetic::power::pow(256, m);
        assert(n / 256 < p) by (nonlinear_arith)
            requires
                n < p * 256,
        ;
        lemma_be_round_trip(n / 256, m);
        assert(be_bytes(n, len).drop_last() =~= be_bytes(n / 256, m));
    }
}

// ---------------------------------------------------------------------------
// Texts and numbers
// ---------------------------------------------------------------------------

proof fn lemma_groups_small(p: Seq<Seq<char>>, dotted: bool)
    requires
        piece_groups(p, dotted) is Some,
    ensures
        forall|i: int|
            0 <= i < piece_groups(p, dotted)->0.len() ==> #[trigger] piece_groups(p, dotted)->0[i]
                < 0x1_0000,
    decreases p.len(),
{
    if p.len() == 0 {
    } else if p.len() == 1 && dotted && v4_value(p[0]) is Some {
        assert(v4_value(p[0])->0 < 0x1_0000_0000);
    } else {
        lemma_groups_small(p.drop_first(), dotted);
        lemma_short_digits(p[0], 16);
        let rest = piece_groups(p.drop_first(), dotted)->0;
        let all = piece_groups(p, dotted)->0;
        assert forall|i: int| 0 <= i < all.len() implies #[trigger] all[i] < 0x1_0000 by {
            if i > 0 {
                assert(all[i] == rest[i - 1]);
            }
        }
    }
}

/// The numbers that texts write fit the addresses.
pub proof fn lemma_ip_numbers(s: Seq<char>)
    ensures
        v4_value(s) matches Some(v) ==> v < 0x1_0000_0000,
        v6_groups(s) matches Some(g) ==> g.len() == 8 && (forall|i: int|
            0 <= i < 8 ==> #[trigger] g[i] < 0x1_0000) && v6_number(g) <= u128::MAX,
{
    if v6_groups(s) is Some {
        let g = v6_groups(s)->0;
        let i = gap_index(s);
        if i < s.len() {
            let head = s.take(i);
            let tail = s.skip(i + 2);
            if head.len() > 0 {
                lemma_groups_small(text::split_on(head, ':'), false);
            }
            if tail.len() > 0 {
                lemma_groups_small(text::split_on(tail, ':'), true);
            }
            let h = part_groups(head, false)->0;
            let t = part_groups(tail, true)->0;
            assert forall|k: int| 0 <= k < 8 implies #[trigger] g[k] < 0x1_0000 by {
                if k < h.len() {
                    assert(g[k] == h[k]);
                } else if k >= 8 - t.len() {
                    assert(g[k] == t[k - (8 - t.len())]);
                }
            }
        } else {
            if s.len() > 0 {
                lemma_groups_small(text::split_on(s, ':'), true);
            }
        }
        assert(g[0] < 0x1_0000 && g[1] < 0x1_0000 && g[2] < 0x1_0000 && g[3] < 0x1_0000);
        assert(g[4] < 0x1_0000 && g[5] < 0x1_0000 && g[6] < 0x1_0000 && g[7] < 0x1_0000);
    }
}

proof fn lemma_octet_text(n: nat)
    requires
        n < 256,
    ensures
        octet_value(text::decimal(n)) == Some(n),
        forall|k: int|
            0 <= k < text::decimal(n).len() ==> '0' <= #[trigger] text::decimal(n)[k] <= '9',
{
    reveal_with_fuel(text::decimal, 4);
    text::lemma_decimal(n);
    let d = text::decimal(n);
    if n >= 100 {
        assert(text::decimal(n / 10) == text::decimal(n / 10 / 10).push(
            text::decimal_digit(n / 10 % 10),
        ));
        assert(d[0] == text::decimal_digit(n / 10 / 10));
    } else if n >= 10 {
        assert(d[0] == text::decimal_digit(n / 10));
    }
}

/// The four parts of a dotted text.
proof fn lemma_dotted(a: Seq<char>, b: Seq<char>, c: Seq<char>, d: Seq<char>)
    requires
        forall|k: int| 0 <= k < a.len() ==> '0' <= #[trigger] a[k] <= '9',
        forall|k: int| 0 <= k < b.len() ==> '0' <= #[trigger] b[k] <= '9',
        forall|k: int| 0 <= k < c.len() ==> '0' <= #[trigger] c[k] <= '9',
        forall|k: int| 0 <= k < d.len() ==> '0' <= #[trigger] d[k] <= '9',
    ensures
        ({
            let s = a + seq!['.'] + b + seq!['.'] + c + seq!['.'] + d;
            &&& text::split_on(s, '.') == seq![a, b, c, d]
            &&& forall|k: int| 0 <= k < s.len() ==> '0' <= #[trigger] s[k] <= '9' || s[k] == '.'
        }),
{
    let s2 = a + seq!['.'] + b;
    let s3 = s2 + seq!['.'] + c;
    let s = s3 + seq!['.'] + d;
    text::lemma_split_whole(a, '.');
    text::lemma_split_whole(b, '.');
    text::lemma_split_whole(c, '.');
    text::lemma_split_whole(d, '.');
    text::lemma_split_joined(a, b, '.');
    text::lemma_split_joined(s2, c, '.');
    text::lemma_split_joined(s3, d, '.');
    assert(text::split_on(s, '.') =~= seq![a, b, c, d]);
    assert forall|k: int| 0 <= k < s2.len() implies '0' <= #[trigger] s2[k] <= '9' || s2[k]
        == '.' by {
        if k < a.len() {
            assert(s2[k] == a[k]);
        } else if k > a.len() {
            assert(s2[k] == b[k - a.len() - 1]);
        }
    }
    assert forall|k: int| 0 <= k < s3.len() implies '0' <= #[trigger] s3[k] <= '9' || s3[k]
        == '.' by {
        if k < s2.len() {
            assert(s3[k] == s2[k]);
        } else if k > s2.len() {
            assert(s3[k] == c[k - s2.len() - 1]);
        }
    }
    assert forall|k: int| 0 <= k < s.len() implies '0' <= #[trigger] s[k] <= '9' || s[k]
        == '.' by {
        if k < s3.len() {
            assert(s[k] == s3[k]);
        } else if k > s3.len() {
            assert(s[k] == d[k - s3.len() - 1]);
        }
    }
}

/// Every IPv4 address that is written is read back.
#[verifier::spinoff_prover]
pub proof fn law_v4_text_is_read_back(ip: u32)
    ensures
        v4_value(v4_text(ip)) == Some(ip as nat),
        ip_of(v4_text(ip)) == Some(IpAddr::V4(ip)),
        forall|k: int|
            0 <= k < v4_text(ip).len() ==> '0' <= #[trigger] v4_text(ip)[k] <= '9' || v4_text(
                ip,
            )[k] == '.',
{
    let a = (ip / 0x100_0000) as nat;
    let b = (ip / 0x1_0000 % 0x100) as nat;
    let c = (ip / 0x100 % 0x100) as nat;
    let d = (ip % 0x100) as nat;
    lemma_octet_text(a);
    lemma_octet_text(b);
    lemma_octet_text(c);
    lemma_octet_text(d);
    lemma_dotted(text::decimal(a), text::decimal(b), text::decimal(c), text::decimal(d));
    let p = text::split_on(v4_text(ip), '.');
    assert(p.len() == 4);
    assert(p[0] == text::decimal(a) && p[1] == text::decimal(b));
    assert(p[2] == text::decimal(c) && p[3] == text::decimal(d));
    assert(v4_number(a, b, c, d) == ip);
}

proof fn lemma_hex_text(n: nat)
    requires
        n < 0x1_0000,
    ensures
        group_value(hex_numeral(n)) == Some(n),
        hex_numeral(n).len() > 0,
        forall|k: int|
            0 <= k < hex_numeral(n).len() ==> #[trigger] hex_numeral(n)[k] != ':' && hex_numeral(
                n,
            )[k] != '.',
        v4_value(hex_numeral(n)) is None,
{
    lemma_hex_digits(n);
    let d = hex_numeral(n);
    reveal_with_fuel(hex_numeral, 5);
    assert(d.len() <= 4);
    text::lemma_split_whole(d, '.');
}

proof fn lemma_hex_digits(n: nat)
    ensures
        hex_numeral(n).len() > 0,
        text::all_digits(hex_numeral(n), 16),
        text::digits_value(hex_numeral(n), 16) == n,
        forall|k: int|
            0 <= k < hex_numeral(n).len() ==> #[trigger] hex_numeral(n)[k] != ':' && hex_numeral(
                n,
            )[k] != '.',
    decreases n,
{
    let d = hex_numeral(n);
    if n >= 16 {
        lemma_hex_digits(n / 16);
        let rest = hex_numeral(n / 16);
        assert(d.drop_last() =~= rest);
        assert forall|k: int| 0 <= k < d.len() implies #[trigger] text::digit_value(d[k]) is Some
            && text::digit_value(d[k])->0 < 16 by {
            if k < rest.len() {
                assert(d[k] == rest[k]);
                assert(text::digit_value(rest[k]) is Some);
            }
        }
        assert forall|k: int| 0 <= k < d.len() implies #[trigger] d[k] != ':' && d[k] != '.' by {
            if k < rest.len() {
                assert(d[k] == rest[k]);
            }
        }
    } else {
        assert(d.drop_last() =~= seq![]);
        assert(text::digits_value(d.drop_last(), 16) == 0);
    }
    assert(text::digit_value(d.last()) == Some((n % 16) as nat));
}

/// The groups are numbers of two bytes.
spec fn are_groups(g: Seq<nat>) -> bool {
    forall|i: int| 0 <= i < g.len() ==> #[trigger] g[i] < 0x1_0000
}

/// The groups, each as text.
spec fn group_texts(g: Seq<nat>) -> Seq<Seq<char>> {
    g.map_values(|n: nat| hex_numeral(n))
}

/// No two colons stand side by side, and none at either end.
spec fn colons_apart(s: Seq<char>) -> bool {
    &&& s.len() > 0
    &&& s[0] != ':'
    &&& s.last() != ':'
    &&& forall|k: int| 0 <= k && k + 1 < s.len() ==> !(#[trigger] s[k] == ':' && s[k + 1] == ':')
    &&& forall|k: int| 0 <= k < s.len() ==> #[trigger] s[k] != '.'
}

proof fn lemma_groups_text(g: Seq<nat>)
    requires
        g.len() > 0,
        are_groups(g),
    ensures
        text::split_on(groups_text(g), ':') == group_texts(g),
        colons_apart(groups_text(g)),
    decreases g.len(),
{
    let s = groups_text(g);
    let last = hex_numeral(g.last());
    assert(g.last() == g[g.len() - 1]);
    lemma_hex_text(g.last());
    text::lemma_split_whole(last, ':');
    if g.len() == 1 {
        assert(group_texts(g) =~= seq![last]);
        assert(s =~= last);
    } else {
        let before = g.drop_last();
        assert forall|i: int| 0 <= i < before.len() implies #[trigger] before[i] < 0x1_0000 by {
            assert(before[i] == g[i]);
        }
        lemma_groups_text(before);
        let head = groups_text(before);
        text::lemma_split_joined(head, last, ':');
        assert(group_texts(g) =~= group_texts(before).push(last));
        assert(text::split_on(s, ':') =~= group_texts(g));
        assert(s[0] == head[0]);
        assert(s.last() == last.last());
        assert forall|k: int| 0 <= k && k + 1 < s.len() implies !(#[trigger] s[k] == ':' && s[k + 1]
            == ':') by {
            if k + 1 < head.len() {
                assert(head[k] == s[k] && head[k + 1] == s[k + 1]);
            } else if k < head.len() {
                assert(s[k] == head.last());
            } else if k == head.len() {
                assert(s[k + 1] == last[0]);
            } else {
                assert(s[k] == last[k - head.len() - 1]);
            }
        }
        assert forall|k: int| 0 <= k < s.len() implies #[trigger] s[k] != '.' by {
            if k < head.len() {
                assert(s[k] == head[k]);
            } else if k > head.len() {
                assert(s[k] == last[k - head.len() - 1]);
            }
        }
    }
}

proof fn lemma_group_pieces(g: Seq<nat>, dotted: bool)
    requires
        are_groups(g),
    ensures
        piece_groups(group_texts(g), dotted) == Some(g),
    decreases g.len(),
{
    let p = group_texts(g);
    if g.len() == 0 {
        assert(g =~= seq![]);
    } else {
        lemma_hex_text(g[0]);
        let rest = g.drop_first();
        assert forall|i: int| 0 <= i < rest.len() implies #[trigger] rest[i] < 0x1_0000 by {
            assert(rest[i] == g[i + 1]);
        }
        lemma_group_pieces(rest, dotted);
        assert(p.drop_first() =~= group_texts(rest));
        assert(p[0] == hex_numeral(g[0]));
        assert(seq![g[0]] + rest =~= g);
    }
}

proof fn lemma_part_text(g: Seq<nat>, dotted: bool)
    requires
        are_groups(g),
    ensures
        part_groups(groups_text(g), dotted) == Some(g),
{
    if g.len() == 0 {
        assert(g =~= seq![]);
    } else {
        lemma_groups_text(g);
        lemma_group_pieces(g, dotted);
    }
}

proof fn lemma_zero_run(g: Seq<nat>, i: int)
    requires
        0 <= i <= g.len(),
    ensures
        i + zero_run(g, i) <= g.len(),
        forall|k: int| i <= k < i + zero_run(g, i) ==> #[trigger] g[k] == 0,
    decreases g.len() - i,
{
    if i < g.len() && g[i] == 0 {
        lemma_zero_run(g, i + 1);
    }
}

proof fn lemma_longest_zero_run(g: Seq<nat>, n: nat)
    requires
        n <= g.len(),
    ensures
        ({
            let r = longest_zero_run(g, n);
            &&& 0 <= r.0
            &&& r.0 + r.1 <= g.len()
            &&& forall|k: int| r.0 <= k < r.0 + r.1 ==> #[trigger] g[k] == 0
        }),
    decreases n,
{
    if n > 0 {
        lemma_longest_zero_run(g, (n - 1) as nat);
        lemma_zero_run(g, n - 1);
    }
}

proof fn lemma_groups_of(ip: u128)
    ensures
        are_groups(groups_of(ip)),
        v6_number(groups_of(ip)) == ip,
{
    let g = groups_of(ip);
    let x = ip as int;
    let b: int = 0x1_0000;
    let x1 = x / b;
    let x2 = x1 / b;
    let x3 = x2 / b;
    let x4 = x3 / b;
    let x5 = x4 / b;
    let x6 = x5 / b;
    let x7 = x6 / b;
    vstd::arithmetic::div_mod::lemma_div_denominator(x, 0x1_0000, b);
    vstd::arithmetic::div_mod::lemma_div_denominator(x, 0x1_0000_0000, b);
    vstd::arithmetic::div_mod::lemma_div_denominator(x, 0x1_0000_0000_0000, b);
    vstd::arithmetic::div_mod::lemma_div_denominator(x, 0x1_0000_0000_0000_0000, b);
    vstd::arithmetic::div_mod::lemma_div_denominator(x, 0x1_0000_0000_0000_0000_0000, b);
    vstd::arithmetic::div_mod::lemma_div_denominator(x, 0x1_0000_0000_0000_0000_0000_0000, b);
    assert(g[7] == x % b && g[6] == x1 % b && g[5] == x2 % b && g[4] == x3 % b);
    assert(g[3] == x4 % b && g[2] == x5 % b && g[1] == x6 % b && g[0] == x7);
    assert(x == x1 * b + x % b);
    assert(x1 == x2 * b + x1 % b);
    assert(x2 == x3 * b + x2 % b);
    assert(x3 == x4 * b + x3 % b);
    assert(x4 == x5 * b + x4 % b);
    assert(x5 == x6 * b + x5 % b);
    assert(x6 == x7 * b + x6 % b);
}

proof fn lemma_not_v4(s: Seq<char>)
    requires
        forall|k: int| 0 <= k < s.len() ==> #[trigger] s[k] != '.',
    ensures
        v4_value(s) is None,
{
    text::lemma_split_whole(s, '.');
}

/// An address that carries an IPv4 address ends dotted.
proof fn lemma_mapped_text(low: u32)
    ensures
        ({
            let s = seq![':', ':', 'f', 'f', 'f', 'f', ':'] + v4_text(low);
            &&& v4_value(s) is None
            &&& v6_groups(s) == Some(
                seq![
                    0nat,
                    0nat,
                    0nat,
                    0nat,
                    0nat,
                    0xffffnat,
                    (low as nat) / 0x1_0000,
                    (low as nat) % 0x1_0000,
                ],
            )
        }),
{
    let v4 = v4_text(low);
    let s = seq![':', ':', 'f', 'f', 'f', 'f', ':'] + v4;
    let ffff = seq!['f', 'f', 'f', 'f'];
    law_v4_text_is_read_back(low);
    assert(s[0] == ':' && s[1] == ':');
    assert(gap_index(s) == 0);
    assert(s.take(0) =~= seq![]);
    assert(s.skip(2) =~= ffff + seq![':'] + v4);
    text::lemma_split_whole(ffff, ':');
    text::lemma_split_whole(v4, ':');
    text::lemma_split_joined(ffff, v4, ':');
    let p = seq![ffff, v4];
    assert(text::split_on(s.skip(2), ':') =~= p);
    assert(group_value(ffff) == Some(0xffffnat)) by {
        lemma_hex_text(0xffff);
        reveal_with_fuel(hex_numeral, 5);
        assert(hex_numeral(0xffff) =~= ffff);
    }
    assert(p.drop_first() =~= seq![v4]);
    let pair = seq![(low as nat) / 0x1_0000, (low as nat) % 0x1_0000];
    assert(piece_groups(seq![v4], true) == Some(pair));
    assert(piece_groups(p, true) == Some(seq![0xffffnat] + pair));
    assert(v6_groups(s)->0 =~= seq![
        0nat,
        0nat,
        0nat,
        0nat,
        0nat,
        0xffffnat,
        (low as nat) / 0x1_0000,
        (low as nat) % 0x1_0000,
    ]);
    assert(v4_value(s) is None) by {
        let first = text::first_index(s, '.');
        text::lemma_first_index(s, '.');
        let head = text::split_on(s, '.')[0];
        assert(head == (if first >= s.len() {
            s
        } else {
            s.take(first)
        }));
        assert(first > 0);
        assert(head[0] == ':');
        assert(text::digit_value(head[0]) is None);
    }
}

/// An address with a run of zero groups that became a double colon.
proof fn lemma_gapped_text(g: Seq<nat>, from: int, n: int)
    requires
        g.len() == 8,
        are_groups(g),
        0 <= from,
        1 < n,
        from + n <= 8,
        forall|k: int| from <= k < from + n ==> #[trigger] g[k] == 0,
    ensures
        ({
            let s = groups_text(g.take(from)) + seq![':', ':'] + groups_text(g.skip(from + n));
            &&& v4_value(s) is None
            &&& v6_groups(s) == Some(g)
        }),
{
    let a = g.take(from);
    let b = g.skip(from + n);
    let x = groups_text(a);
    let y = groups_text(b);
    let s = x + seq![':', ':'] + y;
    assert forall|i: int| 0 <= i < a.len() implies #[trigger] a[i] < 0x1_0000 by {
        assert(a[i] == g[i]);
    }
    assert forall|i: int| 0 <= i < b.len() implies #[trigger] b[i] < 0x1_0000 by {
        assert(b[i] == g[i + from + n]);
    }
    lemma_part_text(a, false);
    lemma_part_text(b, true);
    if a.len() > 0 {
        lemma_groups_text(a);
    }
    if b.len() > 0 {
        lemma_groups_text(b);
    }
    let i = x.len() as int;
    assert forall|k: int| 0 <= k < i && k + 1 < s.len() implies !(#[trigger] s[k] == ':' && s[k + 1]
        == ':') by {
        if k + 1 < i {
            assert(x[k] == s[k] && x[k + 1] == s[k + 1]);
        } else {
            assert(s[k] == x.last());
        }
    }
    assert(s[i] == ':' && s[i + 1] == ':');
    lemma_gap_index(s, i);
    assert(s.take(i) =~= x);
    assert(s.skip(i + 2) =~= y);
    assert(v6_groups(s)->0 =~= g);
    assert forall|k: int| 0 <= k < s.len() implies #[trigger] s[k] != '.' by {
        if k < i {
            assert(s[k] == x[k]);
        } else if k >= i + 2 {
            assert(s[k] == y[k - i - 2]);
        }
    }
    lemma_not_v4(s);
}

/// Every IPv6 address that is written is read back.
#[verifier::spinoff_prover]
pub proof fn law_v6_text_is_read_back(ip: u128)
    ensures
        ip_of(v6_text(ip)) == Some(IpAddr::V6(ip)),
        v6_groups(v6_text(ip)) is Some,
        v4_value(v6_text(ip)) is None,
{
    let g = groups_of(ip);
    let s = v6_text(ip);
    let run = longest_zero_run(g, 8);
    lemma_groups_of(ip);
    lemma_longest_zero_run(g, 8);
    if ip / 0x1_0000_0000 == 0xffff {
        let low = (ip % 0x1_0000_0000) as u32;
        lemma_mapped_text(low);
        assert(v6_number(v6_groups(s)->0) == 0xffff * 0x1_0000_0000 + low);
    } else if run.1 > 1 {
        lemma_gapped_text(g, run.0, run.1 as int);
    } else {
        lemma_groups_text(g);
        lemma_part_text(g, true);
        lemma_gap_index(s, s.len() as int);
        lemma_not_v4(s);
    }
}

/// Every address that is written is read back: no two addresses share a text.
pub proof fn law_ip_text_is_read_back(ip: IpAddr)
    ensures
        ip_of(ip_text(ip)) == Some(ip),
{
    match ip {
        IpAddr::V4(v) => law_v4_text_is_read_back(v),
        IpAddr::V6(v) => law_v6_text_is_read_back(v),
    }
}

/// Numbers are written with their high bytes first.
pub proof fn law_high_bytes_first(n: nat, len: nat)
    requires
        len > 0,
    ensures
        be_bytes(n, len).len() == len,
        be_bytes(n, len).last() == n % 256,
        be_bytes(n, len).drop_last() == be_bytes(n / 256, (len - 1) as nat),
{
    lemma_be_bytes_len(n, len);
    assert(be_bytes(n, len).drop_last() =~= be_bytes(n / 256, (len - 1) as nat));
}

/// A text without a colon is no IPv6 address.
pub proof fn lemma_no_colon(s: Seq<char>)
    requires
        !s.contains(':'),
    ensures
        v6_groups(s) is None,
{
    assert forall|k: int| 0 <= k < s.len() implies s[k] != ':' by {
        assert(s.contains(s[k]));
    }
    lemma_gap_index(s, s.len() as int);
    text::lemma_split_whole(s, ':');
    let p = text::split_on(s, ':');
    if s.len() > 0 {
        reveal_with_fuel(piece_groups, 3);
        assert(p.drop_first() =~= Seq::<Seq<char>>::empty());
    }
}

} // verus!
