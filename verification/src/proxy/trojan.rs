//! The Trojan protocol.

use vstd::prelude::*;
use vstd::string::StringSliceAdditionalSpecFns;

use crate::config::TransportConfig;
use crate::crypto;
use crate::net;
use crate::proxy::address;
use crate::proxy::address::AddressTags;
use crate::proxy::transport;
use crate::proxy::transport::TlsConnFactory;
use crate::text;

verus! {

broadcast use {
    vstd::seq::group_seq_axioms,
    vstd::slice::group_slice_axioms,
    vstd::string::group_string_axioms,
    vstd::std_specs::vec::group_vec_axioms,
};

/// The type bytes of addresses.
pub open spec fn tags() -> AddressTags {
    AddressTags { v4: 1, v6: 4, domain: 3 }
}

/// What can go wrong in Trojan.
#[derive(Debug)]
pub enum TrojanError {
    /// The target's name is too long for its length byte.
    DomainTooLong(usize),
}

impl TrojanError {
    /// The text that is shown for the error.
    pub open spec fn text(self) -> Seq<char> {
        match self {
            TrojanError::DomainTooLong(n) => "Domain name too long for Trojan: "@ + text::decimal(
                n as nat,
            ) + " bytes (max 255)"@,
        }
    }

    /// The text that is shown for the error.
    pub fn message(&self) -> (r: String)
        ensures
            r@ == self.text(),
    {
        let mut out: Vec<char> = Vec::new();
        match self {
            TrojanError::DomainTooLong(n) => {
                text::append_str(&mut out, "Domain name too long for Trojan: ");
                text::append_chars(&mut out, text::decimal_text(*n as u64).as_slice());
                text::append_str(&mut out, " bytes (max 255)");
            },
        }
        assert(out@ =~= self.text());
        text::string_of(out.as_slice())
    }
}

/// A Trojan server. It is always reached over TLS.
#[derive(Debug)]
pub struct TrojanOutbound {
    pub server: String,
    pub port: u16,
    /// The SHA-224 digest of the password in hexadecimal.
    pub password_hash: String,
    /// How connections to the server are made.
    pub factory: TlsConnFactory,
    /// Connections are opened before they are needed.
    pub warm_pool: bool,
}

/// The server that a configuration describes.
pub open spec fn is_outbound_for(
    o: TrojanOutbound,
    server: Seq<char>,
    port: u16,
    password: Seq<char>,
    transport: Option<&TransportConfig>,
    warm_pool: bool,
) -> bool {
    &&& o.server@ == server
    &&& o.port == port
    &&& o.password_hash@ == crypto::hex_text(crypto::sha224_of(vstd::utf8::encode_utf8(password)))
    &&& o.factory@ == transport::transport_factory(server, port, transport, true)
    &&& o.warm_pool == warm_pool
}

impl TrojanOutbound {
    /// A server whose connections are opened before they are needed.
    pub fn new(
        server: &str,
        port: u16,
        password: &str,
        transport: Option<&TransportConfig>,
    ) -> (r: Self)
        ensures
            is_outbound_for(r, server@, port, password@, transport, true),
    {
        Self::build(server, port, password, transport, true)
    }

    /// A server that is connected to only when asked.
    pub fn new_unwarmed(
        server: &str,
        port: u16,
        password: &str,
        transport: Option<&TransportConfig>,
    ) -> (r: Self)
        ensures
            is_outbound_for(r, server@, port, password@, transport, false),
    {
        Self::build(server, port, password, transport, false)
    }

    fn build(
        server: &str,
        port: u16,
        password: &str,
        transport: Option<&TransportConfig>,
        warm_pool: bool,
    ) -> (r: Self)
        ensures
            is_outbound_for(r, server@, port, password@, transport, warm_pool),
    {
        let hash = crypto::sha224(password.as_bytes());
        TrojanOutbound {
            server: text::string_of(text::chars_of(server).as_slice()),
            port,
            password_hash: crypto::hex_encode(hash.as_slice()),
            factory: TlsConnFactory::from_transport(server, port, transport, true),
            warm_pool,
        }
    }
}

/// A request: the digest of the password on a line, then the command to
/// connect, the target's host and port, and the end of the line.
pub open spec fn request_bytes(password_hash: &str, host: &str, port: u16) -> Seq<u8> {
    password_hash.spec_bytes() + seq![13u8, 10u8, 1u8] + address::host_bytes(tags(), host)
        + net::be_bytes(port as nat, 2) + seq![13u8, 10u8]
}

/// The request that opens a stream to a target. A name that its length byte
/// cannot announce is an error.
pub fn build_trojan_request(password_hash: &str, host: &str, port: u16) -> (r: Result<
    Vec<u8>,
    TrojanError,
>)
    ensures
        r is Ok == address::host_fits(host),
        r matches Ok(b) ==> b@ == request_bytes(password_hash, host, port),
        r matches Err(e) ==> e == TrojanError::DomainTooLong(host.spec_bytes().len() as usize),
{
    let mut out: Vec<u8> = Vec::new();
    text::append_bytes(&mut out, password_hash.as_bytes());
    out.push(13);
    out.push(10);
    out.push(1);
    match address::push_host(&mut out, AddressTags { v4: 1, v6: 4, domain: 3 }, host) {
        Ok(()) => {
            net::push_be(&mut out, port as u128, 2);
            out.push(13);
            out.push(10);
            assert(out@ =~= request_bytes(password_hash, host, port));
            Ok(out)
        },
        Err(n) => Err(TrojanError::DomainTooLong(n)),
    }
}

/// A server reads a request by its parts: the digest of the password, a line
/// end, the command, the target, the port, and a line end; and nothing stands
/// behind it.
pub proof fn law_request_is_read_by_the_server(password_hash: &str, host: &str, port: u16)
    requires
        address::host_fits(host),
    ensures
        ({
            let b = request_bytes(password_hash, host, port);
            let n = password_hash.spec_bytes().len() as int;
            let e = b.len() - 4;
            &&& b.len() >= n + 9
            &&& b.take(n) == password_hash.spec_bytes()
            &&& b[n] == 13
            &&& b[n + 1] == 10
            &&& b[n + 2] == 1
            &&& address::destination_at(b, n + 3, 1, 4, 3) == Some(
                (address::destination_of(host@), e),
            )
            &&& address::word_at(b, e) == port
            &&& b[e + 2] == 13
            &&& b[e + 3] == 10
        }),
{
    let b = request_bytes(password_hash, host, port);
    let name = address::host_bytes(tags(), host);
    let hash = password_hash.spec_bytes();
    let n = hash.len() as int;
    let p = net::be_bytes(port as nat, 2);
    let front = hash + seq![13u8, 10u8, 1u8];
    let behind = p + seq![13u8, 10u8];
    address::lemma_host_len(tags(), host);
    net::lemma_be_bytes_len(port as nat, 2);
    net::lemma_powers_of_256();
    net::lemma_be_round_trip(port as nat, 2);
    assert(b =~= front + name + behind);
    address::law_host_is_read_back(tags(), front, host, behind);
    assert(b.take(n) =~= hash);
    let e = b.len() - 4;
    assert(b.subrange(e, e + 2) =~= p);
    address::lemma_numbers(b, e);
}

} // verus!
