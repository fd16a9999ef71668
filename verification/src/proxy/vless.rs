//! The VLESS protocol.

use vstd::prelude::*;
use vstd::string::StringSliceAdditionalSpecFns;

use crate::config::TransportConfig;
use crate::crypto;
use crate::net;
use crate::proxy::address;
use crate::proxy::address::AddressTags;
use crate::proxy::transport;
use crate::proxy::transport::TlsConnFactory;
use crate::text;

verus! {

broadcast use {
    vstd::seq::group_seq_axioms,
    vstd::slice::group_slice_axioms,
    vstd::array::group_array_axioms,
    vstd::string::group_string_axioms,
    vstd::std_specs::vec::group_vec_axioms,
};

/// The type bytes of addresses.
pub open spec fn tags() -> AddressTags {
    AddressTags { v4: 1, v6: 3, domain: 2 }
}

/// What can go wrong in VLESS.
#[derive(Debug)]
pub enum VlessError {
    /// The user's identifier cannot be read; with what is wrong with it.
    BadUuid(String),
    /// The target's name is too long for its length byte.
    DomainTooLong(usize),
    /// The server answered in another version.
    BadVersion(u8),
    /// The stream ended inside the answer's header.
    UnexpectedEof,
}

impl VlessError {
    /// The text that is shown for the error.
    pub open spec fn text(self) -> Seq<char> {
        match self {
            VlessError::BadUuid(e) => e@,
            VlessError::DomainTooLong(n) => "Domain name too long for VLESS: "@ + text::decimal(
                n as nat,
            ) + " bytes (max 255)"@,
            VlessError::BadVersion(v) => "Unexpected VLESS response version: "@ + text::decimal(
                v as nat,
            ),
            VlessError::UnexpectedEof => "early eof"@,
        }
    }

    /// The text that is shown for the error.
    pub fn message(&self) -> (r: String)
        ensures
            r@ == self.text(),
    {
        let mut out: Vec<char> = Vec::new();
        match self {
            VlessError::BadUuid(e) => {
                text::append_str(&mut out, e.as_str());
            },
            VlessError::DomainTooLong(n) => {
                text::append_str(&mut out, "Domain name too long for VLESS: ");
                text::append_chars(&mut out, text::decimal_text(*n as u64).as_slice());
                text::append_str(&mut out, " bytes (max 255)");
            },
            VlessError::BadVersion(v) => {
                text::append_str(&mut out, "Unexpected VLESS response version: ");
                text::append_chars(&mut out, text::decimal_text(*v as u64).as_slice());
            },
            VlessError::UnexpectedEof => {
                text::append_str(&mut out, "early eof");
            },
        }
        assert(out@ =~= self.text());
        text::string_of(out.as_slice())
    }
}

/// A VLESS server.
#[derive(Debug)]
pub struct VlessOutbound {
    pub server: String,
    pub port: u16,
    pub uuid: [u8; 16],
    /// How connections to the server are made.
    pub factory: TlsConnFactory,
    /// Connections are opened before they are needed.
    pub warm_pool: bool,
}

/// The server that a configuration describes, or what is wrong with it.
pub open spec fn is_outbound_for(
    r: Result<VlessOutbound, VlessError>,
    server: Seq<char>,
    port: u16,
    uuid_str: Seq<char>,
    transport: Option<&TransportConfig>,
    warm_pool: bool,
) -> bool {
    match crypto::uuid_of(vstd::utf8::encode_utf8(uuid_str)) {
        Some(id) => r matches Ok(o) && o.server@ == server && o.port == port && o.uuid@ == id
            && o.factory@ == transport::transport_factory(server, port, transport, false)
            && o.warm_pool == warm_pool,
        None => r matches Err(VlessError::BadUuid(e)) && e@ == crypto::uuid_complaint(uuid_str),
    }
}

impl VlessOutbound {
    /// A server whose connections are opened before they are needed.
    pub fn new(
        server: &str,
        port: u16,
        uuid_str: &str,
        transport: Option<&TransportConfig>,
    ) -> (r: Result<Self, VlessError>)
        ensures
            is_outbound_for(r, server@, port, uuid_str@, transport, true),
    {
        Self::build(server, port, uuid_str, transport, true)
    }

    /// A server that is connected to only when asked.
    pub fn new_unwarmed(
        server: &str,
        port: u16,
        uuid_str: &str,
        transport: Option<&TransportConfig>,
    ) -> (r: Result<Self, VlessError>)
        ensures
            is_outbound_for(r, server@, port, uuid_str@, transport, false),
    {
        Self::build(server, port, uuid_str, transport, false)
    }

    fn build(
        server: &str,
        port: u16,
        uuid_str: &str,
        transport: Option<&TransportConfig>,
        warm_pool: bool,
    ) -> (r: Result<Self, VlessError>)
        ensures
            is_outbound_for(r, server@, port, uuid_str@, transport, warm_pool),
    {
        let uuid: [u8; 16] = match crypto::parse_uuid(uuid_str) {
            Ok(id) => id,
            Err(e) => {
                return Err(VlessError::BadUuid(e));
            },
        };
        let factory = TlsConnFactory::from_transport(server, port, transport, false);
        Ok(
            VlessOutbound {
                server: text::string_of(text::chars_of(server).as_slice()),
                port,
                uuid,
                factory,
                warm_pool,
            },
        )
    }
}

/// A request: version, user, no extensions, the command to connect, then the
/// target's port and host.
pub open spec fn request_bytes(uuid: Seq<u8>, host: &str, port: u16) -> Seq<u8> {
    seq![0u8] + uuid + seq![0u8, 1u8] + net::be_bytes(port as nat, 2) + address::host_bytes(
        tags(),
        host,
    )
}

/// The request that opens a stream to a target. A name that its length byte
/// cannot announce is an error.
pub fn build_vless_request(uuid: &[u8; 16], host: &str, port: u16) -> (r: Result<
    Vec<u8>,
    VlessError,
>)
    ensures
        r is Ok == address::host_fits(host),
        r matches Ok(b) ==> b@ == request_bytes(uuid@, host, port),
        r matches Err(e) ==> e == VlessError::DomainTooLong(host.spec_bytes().len() as usize),
{
    let mut out: Vec<u8> = Vec::new();
    out.push(0);
    text::append_bytes(&mut out, uuid.as_slice());
    out.push(0);
    out.push(1);
    net::push_be(&mut out, port as u128, 2);
    match address::push_host(&mut out, AddressTags { v4: 1, v6: 3, domain: 2 }, host) {
        Ok(()) => {
            assert(out@ =~= request_bytes(uuid@, host, port));
            Ok(out)
        },
        Err(n) => Err(VlessError::DomainTooLong(n)),
    }
}

// ---------------------------------------------------------------------------
// The answer
// ---------------------------------------------------------------------------

/// What a reader of the stream gets.
#[derive(Debug)]
pub enum ReadStep {
    /// Read this many bytes of the answer's header from the transport first.
    Header(usize),
    /// Read straight from the transport.
    Pass,
    /// The stream is at its end.
    End,
}

/// The header of the answer is read on the first read: a version, the length
/// of the extensions, and the extensions, which are skipped.
#[derive(Debug)]
pub struct VlessStream {
    /// The header, as far as it has arrived.
    pub header: Vec<u8>,
    /// The header could not be read, and that was reported.
    pub failed: bool,
}

/// How many bytes of the header are still to come.
pub open spec fn header_missing(header: Seq<u8>) -> int {
    if header.len() == 0 {
        1
    } else if header.len() == 1 {
        1
    } else {
        2 + header[1] as int - header.len()
    }
}

/// The header so far is one that can be completed.
pub open spec fn header_is_valid(header: Seq<u8>) -> bool {
    &&& header.len() >= 1 ==> header[0] == 0
    &&& header_missing(header) >= 0
}

impl VlessStream {
    /// The header so far can be completed.
    pub open spec fn wf(self) -> bool {
        header_is_valid(self.header@)
    }

    /// A stream whose answer has not arrived.
    pub fn new() -> (r: Self)
        ensures
            r.wf(),
            r.header@ == Seq::<u8>::empty(),
            !r.failed,
    {
        VlessStream { header: Vec::new(), failed: false }
    }

    /// What a reader gets.
    pub fn poll_read(&self) -> (r: ReadStep)
        requires
            self.wf(),
        ensures
            polled(self.header@, self.failed, r),
    {
        if self.failed {
            return ReadStep::End;
        }
        if self.header.len() < 2 {
            return ReadStep::Header(1);
        }
        let total: usize = 2 + self.header[1] as usize;
        if self.header.len() < total {
            ReadStep::Header(total - self.header.len())
        } else {
            ReadStep::Pass
        }
    }

    /// Bytes of the header arrived, at most as many as were asked for.
    pub fn on_data(&mut self, data: &[u8]) -> (r: Result<(), VlessError>)
        requires
            old(self).wf(),
            !old(self).failed,
            1 <= data@.len() <= header_missing(old(self).header@),
        ensures
            final(self).wf(),
            absorbed(old(self).header@, data@, r, final(self).header@, final(self).failed),
    {
        if self.header.len() == 0 && data[0] != 0 {
            self.failed = true;
            return Err(VlessError::BadVersion(data[0]));
        }
        text::append_bytes(&mut self.header, data);
        Ok(())
    }

    /// The transport ended inside the header.
    pub fn on_eof(&mut self) -> (r: VlessError)
        requires
            old(self).wf(),
        ensures
            final(self).wf(),
            final(self).failed,
            final(self).header@ == old(self).header@,
            r == VlessError::UnexpectedEof,
    {
        self.failed = true;
        VlessError::UnexpectedEof
    }
}

/// The header is over exactly where its length byte says: every byte behind
/// it reaches the reader.
pub proof fn law_header_is_skipped(extensions: Seq<u8>)
    requires
        extensions.len() <= 255,
    ensures
        ({
            let header = seq![0u8, extensions.len() as u8] + extensions;
            &&& header_is_valid(header)
            &&& header_missing(header) == 0
            &&& forall|k: int| 0 <= k < header.len() ==> header_missing(#[trigger] header.take(k)) > 0
        }),
{
}

/// A server reads a request by the places of its fields: version, user, length
/// of the additions, command, port, target; and nothing stands behind it.
pub proof fn law_request_is_read_by_the_server(uuid: Seq<u8>, host: &str, port: u16)
    requires
        uuid.len() == 16,
        address::host_fits(host),
    ensures
        ({
            let b = request_bytes(uuid, host, port);
            &&& b.len() >= 23
            &&& b[0] == 0
            &&& b.subrange(1, 17) == uuid
            &&& b[17] == 0
            &&& b[18] == 1
            &&& address::word_at(b, 19) == port
            &&& address::destination_at(b, 21, 1, 3, 2) == Some(
                (address::destination_of(host@), b.len() as int),
            )
        }),
{
    let b = request_bytes(uuid, host, port);
    let name = address::host_bytes(tags(), host);
    let p = net::be_bytes(port as nat, 2);
    let front = seq![0u8] + uuid + seq![0u8, 1u8] + p;
    address::lemma_host_len(tags(), host);
    net::lemma_be_bytes_len(port as nat, 2);
    net::lemma_powers_of_256();
    net::lemma_be_round_trip(port as nat, 2);
    assert(b =~= front + name + seq![]);
    address::law_host_is_read_back(tags(), front, host, seq![]);
    assert(b.subrange(1, 17) =~= uuid);
    assert(b.subrange(19, 21) =~= p);
    address::lemma_numbers(b, 19);
}

/// What a read comes to, by what has come of the header of the answer.
pub open spec fn polled(header: Seq<u8>, failed: bool, r: ReadStep) -> bool {
    &&& failed ==> r is End
    &&& !failed && header_missing(header) > 0 ==> r == ReadStep::Header(
        header_missing(header) as usize,
    )
    &&& !failed && header_missing(header) == 0 ==> r is Pass
}

/// What more of the header comes to.
pub open spec fn absorbed(
    header: Seq<u8>,
    data: Seq<u8>,
    r: Result<(), VlessError>,
    after: Seq<u8>,
    failed: bool,
) -> bool {
    if header.len() == 0 && data[0] != 0 {
        &&& r == Err::<(), VlessError>(VlessError::BadVersion(data[0]))
        &&& failed
        &&& after == header
    } else {
        &&& r == Ok::<(), VlessError>(())
        &&& !failed
        &&& after == header + data
    }
}

/// The answer of the server starts with a zero and the length of what else stands before the
/// first byte for the reader: while that is not all there, never more than it lacks is asked
/// for, and from then on everything passes.
pub proof fn law_header_is_kept_from_the_reader(
    extensions: Seq<u8>,
    k: int,
    r: ReadStep,
)
    requires
        extensions.len() <= 255,
        0 <= k <= 2 + extensions.len(),
        polled((seq![0u8, extensions.len() as u8] + extensions).take(k), false, r),
    ensures
        k == 2 + extensions.len() ==> r is Pass,
        k < 2 + extensions.len() ==> (r matches ReadStep::Header(n) && 0 < n && k + n <= 2
            + extensions.len()),
{
    let header = seq![0u8, extensions.len() as u8] + extensions;
    let part = header.take(k);
    if k >= 2 {
        assert(part[1] == header[1]);
    }
}

/// Only version zero is understood: an answer in another ends the stream with an error, and
/// whatever stands behind the version is taken.
pub proof fn law_only_version_zero_is_understood(
    header: Seq<u8>,
    data: Seq<u8>,
    r: Result<(), VlessError>,
    after: Seq<u8>,
    failed: bool,
)
    requires
        data.len() > 0,
        absorbed(header, data, r, after, failed),
    ensures
        header.len() == 0 && data[0] > 0 ==> r == Err::<(), VlessError>(
            VlessError::BadVersion(data[0]),
        ) && failed,
        header.len() > 0 || data[0] == 0 ==> r is Ok && !failed && after == header + data,
{
}

} // verus!
