//! Target addresses as the proxy protocols write them.

use crate::net;
use crate::text;
use vstd::prelude::*;
use vstd::string::StringSliceAdditionalSpecFns;

verus! {

broadcast use {
    vstd::seq::group_seq_axioms,
    vstd::slice::group_slice_axioms,
    vstd::string::group_string_axioms,
    vstd::std_specs::vec::group_vec_axioms,
};

/// The type bytes that a protocol puts before each form of address.
#[derive(Debug, Clone, Copy)]
pub struct AddressTags {
    pub v4: u8,
    pub v6: u8,
    pub domain: u8,
}

/// The longest domain name that a length byte can announce.
pub const MAX_DOMAIN_LEN: usize = 255;

/// The host is neither an IPv4 nor an IPv6 address.
pub open spec fn is_domain(host: Seq<char>) -> bool {
    net::v4_value(host) is None && net::v6_groups(host) is None
}

/// The host can be written: a domain name has at most 255 bytes.
pub open spec fn host_fits(host: &str) -> bool {
    is_domain(host@) ==> host.spec_bytes().len() <= MAX_DOMAIN_LEN
}

/// A host on the wire: a type byte, then four octets, sixteen octets, or a
/// length byte with the name.
pub open spec fn host_bytes(tags: AddressTags, host: &str) -> Seq<u8> {
    if net::v4_value(host@) is Some {
        seq![tags.v4] + net::be_bytes(net::v4_value(host@)->0, 4)
    } else if net::v6_groups(host@) is Some {
        seq![tags.v6] + net::be_bytes(net::v6_number(net::v6_groups(host@)->0), 16)
    } else {
        seq![tags.domain, host.spec_bytes().len() as u8] + host.spec_bytes()
    }
}

/// Appends a host; a domain name that is too long is refused with its length.
pub fn push_host(out: &mut Vec<u8>, tags: AddressTags, host: &str) -> (r: Result<(), usize>)
    ensures
        r is Ok == host_fits(host),
        r is Ok ==> final(out)@ == old(out)@ + host_bytes(tags, host),
        r matches Err(n) ==> n == host.spec_bytes().len(),
{
    let chars = text::chars_of(host);
    if let Some(v) = net::parse_v4(chars.as_slice()) {
        out.push(tags.v4);
        net::push_be(out, v as u128, 4);
        assert(out@ =~= old(out)@ + host_bytes(tags, host));
        return Ok(());
    }
    if let Some(v) = net::parse_v6(chars.as_slice()) {
        out.push(tags.v6);
        net::push_be(out, v, 16);
        assert(out@ =~= old(out)@ + host_bytes(tags, host));
        return Ok(());
    }
    let name = host.as_bytes();
    if name.len() > MAX_DOMAIN_LEN {
        return Err(name.len());
    }
    out.push(tags.domain);
    out.push(name.len() as u8);
    text::append_bytes(out, name);
    assert(out@ =~= old(out)@ + host_bytes(tags, host));
    Ok(())
}

/// How long a host is on the wire.
pub proof fn lemma_host_len(tags: AddressTags, host: &str)
    requires
        host_fits(host),
    ensures
        2 <= host_bytes(tags, host).len() <= 257,
{
    net::lemma_be_bytes_len(net::v4_value(host@)->0, 4);
    net::lemma_be_bytes_len(net::v6_number(net::v6_groups(host@)->0), 16);
}

/// The text for a server that could not be reached for a target.
pub open spec fn unreached_text(
    protocol: Seq<char>,
    server: Seq<char>,
    port: u16,
    host: Seq<char>,
    target_port: u16,
) -> Seq<char> {
    protocol + ": failed to connect to "@ + server + ":"@ + text::decimal(port as nat)
        + " (target: "@ + host + ":"@ + text::decimal(target_port as nat) + ")"@
}

/// The text for a server that could not be reached for a target.
pub fn unreached_message(
    protocol: &str,
    server: &str,
    port: u16,
    host: &str,
    target_port: u16,
) -> (r: String)
    ensures
        r@ == unreached_text(protocol@, server@, port, host@, target_port),
{
    let mut out: Vec<char> = Vec::new();
    text::append_str(&mut out, protocol);
    text::append_str(&mut out, ": failed to connect to ");
    text::append_str(&mut out, server);
    text::append_str(&mut out, ":");
    text::append_chars(&mut out, text::decimal_text(port as u64).as_slice());
    text::append_str(&mut out, " (target: ");
    text::append_str(&mut out, host);
    text::append_str(&mut out, ":");
    text::append_chars(&mut out, text::decimal_text(target_port as u64).as_slice());
    text::append_str(&mut out, ")");
    assert(out@ =~= unreached_text(protocol@, server@, port, host@, target_port));
    text::string_of(out.as_slice())
}

// ---------------------------------------------------------------------------
// Reading a host back
// ---------------------------------------------------------------------------

/// Where a connection leads, as the far end understands it.
pub enum Destination {
    V4(nat),
    V6(nat),
    /// The bytes of a name.
    Name(Seq<u8>),
}

/// Where a connection to a host has to lead: to the address that the host
/// writes, or to the name that it is.
pub open spec fn destination_of(host: Seq<char>) -> Destination {
    match net::ip_of(host) {
        Some(net::IpAddr::V4(v)) => Destination::V4(v as nat),
        Some(net::IpAddr::V6(v)) => Destination::V6(v as nat),
        None => Destination::Name(vstd::utf8::encode_utf8(host)),
    }
}

/// The two bytes at `i` as a number.
pub open spec fn word_at(b: Seq<u8>, i: int) -> int {
    b[i] * 0x100 + b[i + 1]
}

/// The four bytes at `i` as a number.
pub open spec fn long_at(b: Seq<u8>, i: int) -> int {
    b[i] * 0x100_0000 + b[i + 1] * 0x1_0000 + b[i + 2] * 0x100 + b[i + 3]
}

/// The sixteen bytes at `i` as a number.
pub open spec fn address_at(b: Seq<u8>, i: int) -> int {
    long_at(b, i) * 0x1_0000_0000_0000_0000_0000_0000 + long_at(b, i + 4)
        * 0x1_0000_0000_0000_0000 + long_at(b, i + 8) * 0x1_0000_0000 + long_at(b, i + 12)
}

/// What stands at `i` in a protocol with these type bytes: where it leads, and
/// where the bytes behind it begin.
pub open spec fn destination_at(b: Seq<u8>, i: int, v4: u8, v6: u8, domain: u8) -> Option<
    (Destination, int),
> {
    if b.len() > i + 4 && b[i] == v4 {
        Some((Destination::V4(long_at(b, i + 1) as nat), i + 5))
    } else if b.len() > i + 16 && b[i] == v6 {
        Some((Destination::V6(address_at(b, i + 1) as nat), i + 17))
    } else if b.len() > i + 1 && b[i] == domain && b.len() >= i + 2 + b[i + 1] {
        Some((Destination::Name(b.subrange(i + 2, i + 2 + b[i + 1])), i + 2 + b[i + 1]))
    } else {
        None
    }
}

/// Numbers stand with their high bytes first.
pub proof fn lemma_numbers(b: Seq<u8>, i: int)
    requires
        0 <= i,
    ensures
        i + 2 <= b.len() ==> net::be_value(b.subrange(i, i + 2)) == word_at(b, i),
        i + 4 <= b.len() ==> net::be_value(b.subrange(i, i + 4)) == long_at(b, i),
        i + 16 <= b.len() ==> net::be_value(b.subrange(i, i + 16)) == address_at(b, i),
{
    reveal_with_fuel(net::be_value, 5);
    if i + 2 <= b.len() {
        let s = b.subrange(i, i + 2);
        assert(s.drop_last().drop_last() =~= seq![]);
    }
    if i + 4 <= b.len() {
        lemma_long(b.subrange(i, i + 4));
    }
    if i + 16 <= b.len() {
        let s = b.subrange(i, i + 16);
        assert(s.take(12).take(8) =~= s.take(8));
        assert(s.take(8).take(4) =~= s.take(4));
        lemma_more(s.take(12), s);
        lemma_more(s.take(8), s.take(12));
        lemma_more(s.take(4), s.take(8));
        lemma_long(s.take(4));
        let x = long_at(b, i);
        let y = long_at(b, i + 4);
        let z = long_at(b, i + 8);
        let w = long_at(b, i + 12);
        assert(net::be_value(s.take(4)) == x);
        assert(net::be_value(s.take(8)) == x * 0x1_0000_0000 + y);
        assert(net::be_value(s.take(12)) == (x * 0x1_0000_0000 + y) * 0x1_0000_0000 + z);
        assert(net::be_value(s) == ((x * 0x1_0000_0000 + y) * 0x1_0000_0000 + z) * 0x1_0000_0000
            + w);
    }
}

proof fn lemma_long(s: Seq<u8>)
    requires
        s.len() == 4,
    ensures
        net::be_value(s) == long_at(s, 0),
{
    reveal_with_fuel(net::be_value, 5);
    let s3 = s.drop_last();
    let s2 = s3.drop_last();
    let s1 = s2.drop_last();
    assert(s1.drop_last() =~= seq![]);
    assert(net::be_value(s1) == s[0]);
    assert(net::be_value(s2) == s[0] * 256 + s[1]);
    assert(net::be_value(s3) == (s[0] * 256 + s[1]) * 256 + s[2]);
}

proof fn lemma_more(head: Seq<u8>, s: Seq<u8>)
    requires
        s.len() == head.len() + 4,
        head == s.take(head.len() as int),
    ensures
        net::be_value(s) == net::be_value(head) * 0x1_0000_0000 + long_at(s, head.len() as int),
{
    reveal_with_fuel(net::be_value, 2);
    let s3 = s.drop_last();
    let s2 = s3.drop_last();
    let s1 = s2.drop_last();
    assert(s1.drop_last() =~= head);
    let n = head.len() as int;
    let h = net::be_value(head);
    assert(net::be_value(s1) == h * 256 + s[n]);
    assert(net::be_value(s2) == (h * 256 + s[n]) * 256 + s[n + 1]);
    assert(net::be_value(s3) == ((h * 256 + s[n]) * 256 + s[n + 1]) * 256 + s[n + 2]);
    assert(net::be_value(s) == (((h * 256 + s[n]) * 256 + s[n + 1]) * 256 + s[n + 2]) * 256 + s[n
        + 3]);
}

/// Every host that can be written is read back, wherever it stands and
/// whatever stands behind it: as the address that it is, or as the name that
/// it is.
pub proof fn law_host_is_read_back(
    tags: AddressTags,
    before: Seq<u8>,
    host: &str,
    behind: Seq<u8>,
)
    requires
        host_fits(host),
        tags.v4 != tags.v6,
        tags.v4 != tags.domain,
        tags.v6 != tags.domain,
    ensures
        ({
            let b = before + host_bytes(tags, host) + behind;
            destination_at(b, before.len() as int, tags.v4, tags.v6, tags.domain) == Some(
                (destination_of(host@), b.len() - behind.len()),
            )
        }),
{
    let h = host_bytes(tags, host);
    let b = before + h + behind;
    let i = before.len() as int;
    lemma_host_len(tags, host);
    assert(b[i] == h[0]);
    net::lemma_powers_of_256();
    net::lemma_ip_numbers(host@);
    if net::v4_value(host@) is Some {
        let v = net::v4_value(host@)->0;
        net::lemma_be_bytes_len(v, 4);
        net::lemma_be_round_trip(v, 4);
        assert(b.subrange(i + 1, i + 5) =~= net::be_bytes(v, 4));
        lemma_numbers(b, i + 1);
    } else if net::v6_groups(host@) is Some {
        let v = net::v6_number(net::v6_groups(host@)->0);
        net::lemma_be_bytes_len(v, 16);
        net::lemma_be_round_trip(v, 16);
        assert(b.subrange(i + 1, i + 17) =~= net::be_bytes(v, 16));
        lemma_numbers(b, i + 1);
    } else {
        let name = host.spec_bytes();
        assert(b[i + 1] == name.len());
        assert(b.subrange(i + 2, i + 2 + name.len()) =~= name);
    }
}

/// Eight bytes are two numbers of four.
pub proof fn lemma_two_longs(s: Seq<u8>)
    requires
        s.len() == 8,
    ensures
        net::be_value(s) == long_at(s, 0) * 0x1_0000_0000 + long_at(s, 4),
{
    lemma_long(s.take(4));
    lemma_more(s.take(4), s);
}

} // verus!
