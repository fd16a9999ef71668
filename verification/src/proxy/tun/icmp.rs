//! Answers to pings.

use vstd::prelude::*;

use crate::net;
use crate::text;

verus! {

broadcast use {
    vstd::seq::group_seq_axioms,
    vstd::slice::group_slice_axioms,
    vstd::std_specs::vec::group_vec_axioms,
};

/// The number at two bytes, the first of which counts more.
pub open spec fn pair_at(b: Seq<u8>, i: int) -> u16 {
    (b[i] * 256 + b[i + 1]) as u16
}

/// The identifier and the number of an echo request.
pub open spec fn echo_of(payload: Seq<u8>, kind: u8) -> Option<(u16, u16)> {
    if payload.len() >= 8 && payload[0] == kind && payload[1] == 0 {
        Some((pair_at(payload, 4), pair_at(payload, 6)))
    } else {
        None
    }
}

/// `etherparse::Icmpv4Header::from_slice`: identifier and number of an echo
/// request, which has at least eight bytes, type 8 and code 0. It refuses
/// what is shorter, and finds another type in all else.
#[verifier::external_body]
pub(crate) fn parse_icmpv4_echo(payload: &[u8]) -> (r: Option<(u16, u16)>)
    ensures
        r == echo_of(payload@, 8),
{
    match etherparse::Icmpv4Header::from_slice(payload).ok()?.0.icmp_type {
        etherparse::Icmpv4Type::EchoRequest(echo) => Some((echo.id, echo.seq)),
        _ => None,
    }
}

/// `etherparse::Icmpv6Header::from_slice`: identifier and number of an echo
/// request, which has type 128 and code 0, at least eight bytes and fewer
/// than 2^32. It refuses what is shorter or longer, and finds another type
/// in all else.
#[verifier::external_body]
pub(crate) fn parse_icmpv6_echo(payload: &[u8]) -> (r: Option<(u16, u16)>)
    ensures
        r == (if payload@.len() <= 0xffff_ffff {
            echo_of(payload@, 128)
        } else {
            None
        }),
{
    match etherparse::Icmpv6Header::from_slice(payload).ok()?.0.icmp_type {
        etherparse::Icmpv6Type::EchoRequest(echo) => Some((echo.id, echo.seq)),
        _ => None,
    }
}

/// The sum of the 16-bit words of bytes; a last byte without a partner is
/// the upper half of a word.
pub open spec fn word_sum(b: Seq<u8>) -> nat
    decreases b.len(),
{
    if b.len() == 0 {
        0
    } else if b.len() == 1 {
        b[0] as nat * 256
    } else {
        (b[0] as nat * 256 + b[1] as nat) + word_sum(b.skip(2))
    }
}

/// A sum in 16 bits, where every carry comes in again below.
pub open spec fn folded(sum: nat) -> nat {
    if sum == 0 {
        0
    } else if sum % 0xffff == 0 {
        0xffff
    } else {
        sum % 0xffff
    }
}

/// The checksum of bytes: the complement of their folded sum.
pub open spec fn checksum_of(b: Seq<u8>) -> u16 {
    (0xffff - folded(word_sum(b))) as u16
}

/// The head of an echo reply.
pub open spec fn echo_head(kind: u8, checksum: u16, id: u16, seq: u16) -> Seq<u8> {
    seq![
        kind,
        0,
        (checksum / 256) as u8,
        (checksum % 256) as u8,
        (id / 256) as u8,
        (id % 256) as u8,
        (seq / 256) as u8,
        (seq % 256) as u8,
    ]
}

/// What the checksum covers besides the message: the addresses, the length of
/// the message and its protocol.
pub open spec fn pseudo_head(src: u128, dst: u128, len: nat) -> Seq<u8> {
    net::be_bytes(src as nat, 16) + net::be_bytes(dst as nat, 16) + net::be_bytes(len, 4) + seq![
        0u8,
        0u8,
        0u8,
        58u8,
    ]
}

/// The checksum of an echo reply.
pub open spec fn icmpv4_checksum(id: u16, seq: u16, payload: Seq<u8>) -> u16 {
    checksum_of(echo_head(0, 0, id, seq) + payload)
}

/// The checksum of an echo reply from one IPv6 address to another.
pub open spec fn icmpv6_checksum(
    src: u128,
    dst: u128,
    id: u16,
    seq: u16,
    payload: Seq<u8>,
) -> u16 {
    checksum_of(pseudo_head(src, dst, payload.len() + 8) + echo_head(129, 0, id, seq) + payload)
}

/// `etherparse::Icmpv4Header::new` with `update_checksum` and `to_bytes`: the
/// eight bytes of the head of an echo reply, with the checksum of the head and
/// what follows it.
#[verifier::external_body]
pub(crate) fn icmpv4_reply_head(id: u16, seq: u16, payload: &[u8]) -> (r: Vec<u8>)
    ensures
        r@ == echo_head(0, icmpv4_checksum(id, seq, payload@), id, seq),
{
    let echo = etherparse::IcmpEchoHeader { id, seq };
    let mut head = etherparse::Icmpv4Header::new(etherparse::Icmpv4Type::EchoReply(echo));
    head.update_checksum(payload);
    head.to_bytes().to_vec()
}

/// `etherparse::Icmpv6Header::new` with `update_checksum` and `to_bytes`: the
/// eight bytes of the head of an echo reply, with the checksum of the
/// addresses, the length, the protocol, the head and what follows it. The
/// checksum fails where head and payload are longer than 2^32 - 1 bytes, and
/// nowhere else.
#[verifier::external_body]
pub(crate) fn icmpv6_reply_head(src: u128, dst: u128, id: u16, seq: u16, payload: &[u8]) -> (r:
    Option<Vec<u8>>)
    ensures
        r is Some == (payload@.len() <= 0xffff_fff7),
        r matches Some(h) ==> h@ == echo_head(
            129,
            icmpv6_checksum(src, dst, id, seq, payload@),
            id,
            seq,
        ),
{
    let echo = etherparse::IcmpEchoHeader { id, seq };
    let mut head = etherparse::Icmpv6Header::new(etherparse::Icmpv6Type::EchoReply(echo));
    head.update_checksum(src.to_be_bytes(), dst.to_be_bytes(), payload).ok()?;
    Some(head.to_bytes().to_vec())
}

/// The answer to an echo request: what it carried, behind a head of its own.
pub open spec fn v4_reply(payload: Seq<u8>) -> Option<Seq<u8>> {
    match echo_of(payload, 8) {
        Some((id, seq)) => Some(
            echo_head(0, icmpv4_checksum(id, seq, payload.skip(8)), id, seq) + payload.skip(8),
        ),
        None => None,
    }
}

/// The answer to an echo request for IPv6, from one address to another.
pub open spec fn v6_reply(payload: Seq<u8>, src: u128, dst: u128) -> Option<Seq<u8>> {
    if payload.len() > 0xffff_ffff {
        None
    } else {
        match echo_of(payload, 128) {
            Some((id, seq)) => Some(
                echo_head(129, icmpv6_checksum(src, dst, id, seq, payload.skip(8)), id, seq)
                    + payload.skip(8),
            ),
            None => None,
        }
    }
}

/// Optional bytes.
pub open spec fn opt_bytes(v: Option<Vec<u8>>) -> Option<Seq<u8>> {
    match v {
        Some(b) => Some(b@),
        None => None,
    }
}

/// The answer to an echo request, and to nothing else.
pub fn icmpv4_echo_reply(payload: &[u8]) -> (r: Option<Vec<u8>>)
    ensures
        opt_bytes(r) == v4_reply(payload@),
{
    let (id, seq) = match parse_icmpv4_echo(payload) {
        Some(e) => e,
        None => {
            return None;
        },
    };
    let rest = vstd::slice::slice_subrange(payload, 8, payload.len());
    assert(rest@ =~= payload@.skip(8));
    let mut out = icmpv4_reply_head(id, seq, rest);
    text::append_bytes(&mut out, rest);
    Some(out)
}

/// The answer to an echo request for IPv6, and to nothing else: what keeps
/// the network running is not answered.
pub fn icmpv6_echo_reply(payload: &[u8], reply_src: u128, reply_dst: u128) -> (r: Option<Vec<u8>>)
    ensures
        opt_bytes(r) == v6_reply(payload@, reply_src, reply_dst),
{
    let (id, seq) = match parse_icmpv6_echo(payload) {
        Some(e) => e,
        None => {
            return None;
        },
    };
    let rest = vstd::slice::slice_subrange(payload, 8, payload.len());
    assert(rest@ =~= payload@.skip(8));
    match icmpv6_reply_head(reply_src, reply_dst, id, seq, rest) {
        Some(head) => {
            let mut out = head;
            text::append_bytes(&mut out, rest);
            Some(out)
        },
        None => None,
    }
}

/// A reply carries back what the request carried, under the same identifier
/// and number, and is itself no request.
pub proof fn law_reply_echoes(payload: Seq<u8>)
    requires
        echo_of(payload, 8) is Some,
    ensures
        v4_reply(payload) is Some,
        v4_reply(payload)->0.len() == payload.len(),
        v4_reply(payload)->0.skip(8) == payload.skip(8),
        echo_of(v4_reply(payload)->0, 0) == echo_of(payload, 8),
        echo_of(v4_reply(payload)->0, 8) is None,
{
    let r = v4_reply(payload)->0;
    assert(r.skip(8) =~= payload.skip(8));
}

/// The same for IPv6.
pub proof fn law_v6_reply_echoes(payload: Seq<u8>, src: u128, dst: u128)
    requires
        echo_of(payload, 128) is Some,
        payload.len() <= 0xffff_ffff,
    ensures
        v6_reply(payload, src, dst) is Some,
        v6_reply(payload, src, dst)->0.len() == payload.len(),
        v6_reply(payload, src, dst)->0.skip(8) == payload.skip(8),
        echo_of(v6_reply(payload, src, dst)->0, 129) == echo_of(payload, 128),
        echo_of(v6_reply(payload, src, dst)->0, 128) is None,
{
    let r = v6_reply(payload, src, dst)->0;
    assert(r.skip(8) =~= payload.skip(8));
}

/// Words add up piece by piece, as long as no piece but the last is cut
/// inside a word.
proof fn lemma_word_sum(a: Seq<u8>, b: Seq<u8>)
    requires
        a.len() % 2 == 0,
    ensures
        word_sum(a + b) == word_sum(a) + word_sum(b),
    decreases a.len(),
{
    if a.len() == 0 {
        assert(a + b =~= b);
    } else {
        assert((a + b).skip(2) =~= a.skip(2) + b);
        lemma_word_sum(a.skip(2), b);
    }
}

/// The checksum in a head counts as what it is.
proof fn lemma_head_sum(kind: u8, checksum: u16, id: u16, seq: u16)
    ensures
        word_sum(echo_head(kind, checksum, id, seq)) == word_sum(echo_head(kind, 0, id, seq))
            + checksum,
{
    let h = echo_head(kind, checksum, id, seq);
    let z = echo_head(kind, 0, id, seq);
    lemma_word_sum(h.take(2), h.skip(2));
    lemma_word_sum(z.take(2), z.skip(2));
    assert(h.take(2) + h.skip(2) =~= h);
    assert(z.take(2) + z.skip(2) =~= z);
    assert(h.take(2) =~= z.take(2));
    assert(h.skip(2).skip(2) =~= z.skip(2).skip(2));
}

/// A sum with its own checksum folds to all ones.
proof fn lemma_checksum_completes(sum: nat)
    ensures
        folded(sum) <= 0xffff,
        folded((sum + (0xffff - folded(sum))) as nat) == 0xffff,
{
}

/// What is covered besides the message ends with a whole word.
proof fn lemma_pseudo_head(src: u128, dst: u128, len: nat)
    ensures
        pseudo_head(src, dst, len).len() == 40,
{
    net::lemma_be_bytes_len(src as nat, 16);
    net::lemma_be_bytes_len(dst as nat, 16);
    net::lemma_be_bytes_len(len, 4);
}

/// Whoever adds up a reply finds that its checksum is right.
pub proof fn law_reply_checks_out(payload: Seq<u8>)
    requires
        echo_of(payload, 8) is Some,
    ensures
        folded(word_sum(v4_reply(payload)->0)) == 0xffff,
{
    let (id, seq) = echo_of(payload, 8)->0;
    let rest = payload.skip(8);
    let c = icmpv4_checksum(id, seq, rest);
    lemma_word_sum(echo_head(0, 0, id, seq), rest);
    lemma_word_sum(echo_head(0, c, id, seq), rest);
    lemma_head_sum(0, c, id, seq);
    lemma_checksum_completes(word_sum(echo_head(0, 0, id, seq) + rest));
}

/// The same for IPv6, where the addresses count too.
pub proof fn law_v6_reply_checks_out(payload: Seq<u8>, src: u128, dst: u128)
    requires
        echo_of(payload, 128) is Some,
        payload.len() <= 0xffff_ffff,
    ensures
        folded(
            word_sum(pseudo_head(src, dst, payload.len()) + v6_reply(payload, src, dst)->0),
        ) == 0xffff,
{
    let (id, seq) = echo_of(payload, 128)->0;
    let rest = payload.skip(8);
    let p = pseudo_head(src, dst, payload.len());
    let c = icmpv6_checksum(src, dst, id, seq, rest);
    lemma_pseudo_head(src, dst, payload.len());
    let z = echo_head(129, 0, id, seq);
    let h = echo_head(129, c, id, seq);
    assert(p + z + rest =~= p + (z + rest));
    lemma_word_sum(p, z + rest);
    lemma_word_sum(z, rest);
    lemma_word_sum(p, h + rest);
    lemma_word_sum(h, rest);
    lemma_head_sum(129, c, id, seq);
    lemma_checksum_completes(word_sum(p + z + rest));
}

/// Messages with the same identifier, number and contents are the same behind
/// their checksums.
pub proof fn lemma_echo_bytes(x: Seq<u8>, p: Seq<u8>, kind: u8, asked: u8)
    requires
        p.len() >= 8,
        x.len() == p.len(),
        echo_of(x, kind) is Some,
        echo_of(x, kind) == echo_of(p, asked),
        x.skip(8) == p.skip(8),
    ensures
        x[0] == kind,
        x[1] == 0,
        x.skip(4) == p.skip(4),
{
    assert(pair_at(x, 4) == pair_at(p, 4) && pair_at(x, 6) == pair_at(p, 6));
    assert(x[4] == p[4] && x[5] == p[5] && x[6] == p[6] && x[7] == p[7]);
    assert forall|k: int| 4 <= k < x.len() implies x[k] == p[k] by {
        if k >= 8 {
            assert(x[k] == x.skip(8)[k - 8]);
            assert(p[k] == p.skip(8)[k - 8]);
        }
    }
    assert(x.skip(4) =~= p.skip(4));
}

} // verus!
