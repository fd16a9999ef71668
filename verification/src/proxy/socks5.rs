//! The SOCKS5 server.

use vstd::prelude::*;
use vstd::utf8::*;

use crate::crypto;
use crate::net;
use crate::net::IpAddr;
use crate::text;

verus! {

broadcast use {
    vstd::seq::group_seq_axioms,
    vstd::slice::group_slice_axioms,
    vstd::array::group_array_axioms,
    vstd::string::group_string_axioms,
    vstd::std_specs::vec::group_vec_axioms,
};

/// Why a client is not served.
#[derive(Debug)]
pub enum Socks5Error {
    BadVersion(u8),
    NoAcceptableMethod,
    BadRequestVersion(u8),
    BadAddressType(u8),
    /// The target's name is not text.
    BadName,
    Bind,
    UdpAssociate,
    UnknownCommand(u8),
}

impl Socks5Error {
    /// The text that is shown for the error.
    pub open spec fn text(self) -> Seq<char> {
        match self {
            Socks5Error::BadVersion(v) => "Invalid SOCKS version: "@ + text::decimal(v as nat),
            Socks5Error::NoAcceptableMethod => "Client does not support NO AUTH method"@,
            Socks5Error::BadRequestVersion(v) => "Invalid SOCKS5 request version: "@
                + text::decimal(v as nat),
            Socks5Error::BadAddressType(t) => "Unsupported SOCKS5 address type: 0x"@
                + crypto::hex_text(seq![t]),
            Socks5Error::BadName => "invalid utf-8 in SOCKS5 address"@,
            Socks5Error::Bind => "SOCKS5 BIND not supported"@,
            Socks5Error::UdpAssociate => "SOCKS5 UDP ASSOCIATE not yet implemented"@,
            Socks5Error::UnknownCommand(c) => "Unknown SOCKS5 command: 0x"@ + crypto::hex_text(
                seq![c],
            ),
        }
    }

    /// The text that is shown for the error.
    pub fn message(&self) -> (r: String)
        ensures
            r@ == self.text(),
    {
        let mut out: Vec<char> = Vec::new();
        match self {
            Socks5Error::BadVersion(v) => {
                text::append_str(&mut out, "Invalid SOCKS version: ");
                text::append_chars(&mut out, text::decimal_text(*v as u64).as_slice());
            },
            Socks5Error::NoAcceptableMethod => {
                text::append_str(&mut out, "Client does not support NO AUTH method");
            },
            Socks5Error::BadRequestVersion(v) => {
                text::append_str(&mut out, "Invalid SOCKS5 request version: ");
                text::append_chars(&mut out, text::decimal_text(*v as u64).as_slice());
            },
            Socks5Error::BadAddressType(t) => {
                text::append_str(&mut out, "Unsupported SOCKS5 address type: 0x");
                push_hex_byte(&mut out, *t);
            },
            Socks5Error::BadName => {
                text::append_str(&mut out, "invalid utf-8 in SOCKS5 address");
            },
            Socks5Error::Bind => {
                text::append_str(&mut out, "SOCKS5 BIND not supported");
            },
            Socks5Error::UdpAssociate => {
                text::append_str(&mut out, "SOCKS5 UDP ASSOCIATE not yet implemented");
            },
            Socks5Error::UnknownCommand(c) => {
                text::append_str(&mut out, "Unknown SOCKS5 command: 0x");
                push_hex_byte(&mut out, *c);
            },
        }
        assert(out@ =~= self.text());
        text::string_of(out.as_slice())
    }
}

fn push_hex_byte(out: &mut Vec<char>, b: u8)
    ensures
        final(out)@ == old(out)@ + crypto::hex_text(seq![b]),
{
    let mut one: Vec<u8> = Vec::new();
    one.push(b);
    assert(one@ =~= seq![b]);
    text::append_str(out, crypto::hex_encode(one.as_slice()).as_str());
}

/// An answer to a request: version, code, and an address of zeros.
pub open spec fn reply_bytes(rep: u8) -> Seq<u8> {
    seq![5u8, rep, 0u8, 1u8, 0u8, 0u8, 0u8, 0u8, 0u8, 0u8]
}

/// An answer to a request.
pub fn socks5_reply(rep: u8) -> (r: [u8; 10])
    ensures
        r@ == reply_bytes(rep),
{
    let r: [u8; 10] = [5, rep, 0, 1, 0, 0, 0, 0, 0, 0];
    assert(r@ =~= reply_bytes(rep));
    r
}

/// The answer once the target was connected to, or could not be.
pub open spec fn connect_answer(connected: bool) -> Seq<u8> {
    if connected {
        reply_bytes(0)
    } else {
        reply_bytes(4)
    }
}

/// The answer once the target was connected to, or could not be.
pub fn connect_reply(connected: bool) -> (r: [u8; 10])
    ensures
        r@ == connect_answer(connected),
{
    if connected {
        socks5_reply(0)
    } else {
        socks5_reply(4)
    }
}

// ---------------------------------------------------------------------------
// The greeting
// ---------------------------------------------------------------------------

/// What a client's greeting comes to so far.
#[derive(Debug)]
pub enum Greeting {
    /// This many bytes more are to be read.
    Read(usize),
    /// The client is served; it is answered with these bytes.
    Accept([u8; 2]),
    /// The client is not served; it is answered with these bytes, if any.
    Refuse { reply: Option<[u8; 2]>, error: Socks5Error },
}

/// What a greeting comes to: a version, the number of methods, and the
/// methods. The one that needs no authentication has to be among them.
pub open spec fn is_greeting(b: Seq<u8>, r: Greeting) -> bool {
    if b.len() == 0 {
        r == Greeting::Read(1)
    } else if b[0] != 5 {
        r == Greeting::Refuse { reply: None, error: Socks5Error::BadVersion(b[0]) }
    } else if b.len() == 1 {
        r == Greeting::Read(1)
    } else if b.len() < 2 + b[1] {
        r == Greeting::Read((2 + b[1] - b.len()) as usize)
    } else if b.subrange(2, 2 + b[1]).contains(0u8) {
        r matches Greeting::Accept(a) && a@ == seq![5u8, 0u8]
    } else {
        r matches Greeting::Refuse { reply: Some(a), error } && a@ == seq![5u8, 0xffu8] && error
            == Socks5Error::NoAcceptableMethod
    }
}

/// What a client's greeting comes to, as far as it has arrived.
pub fn greeting_step(b: &[u8]) -> (r: Greeting)
    ensures
        is_greeting(b@, r),
{
    if b.len() == 0 {
        return Greeting::Read(1);
    }
    if b[0] != 5 {
        return Greeting::Refuse { reply: None, error: Socks5Error::BadVersion(b[0]) };
    }
    if b.len() == 1 {
        return Greeting::Read(1);
    }
    let end: usize = 2 + b[1] as usize;
    if b.len() < end {
        return Greeting::Read(end - b.len());
    }
    let ghost methods = b@.subrange(2, end as int);
    let mut i: usize = 2;
    while i < end
        invariant
            2 <= i <= end <= b@.len(),
            b@[0] == 5,
            end == 2 + b@[1],
            methods == b@.subrange(2, end as int),
            forall|k: int| 0 <= k < i - 2 ==> methods[k] != 0,
        decreases end - i,
    {
        if b[i] == 0 {
            assert(methods[i - 2] == 0);
            let ok: [u8; 2] = [5, 0];
            assert(ok@ =~= seq![5u8, 0u8]);
            return Greeting::Accept(ok);
        }
        i = i + 1;
    }
    let no: [u8; 2] = [5, 0xff];
    assert(no@ =~= seq![5u8, 0xffu8]);
    Greeting::Refuse { reply: Some(no), error: Socks5Error::NoAcceptableMethod }
}

// ---------------------------------------------------------------------------
// The request
// ---------------------------------------------------------------------------

/// What the address of a target comes to so far.
#[derive(Debug)]
pub enum AddressStep {
    /// This many bytes more are to be read.
    Read(usize),
    Done { host: String, port: u16 },
    Bad(Socks5Error),
}

/// What an address comes to whose host takes the bytes up to `end`: the port
/// stands in the two bytes behind it.
pub open spec fn is_port_step(b: Seq<u8>, end: int, host: Seq<char>, r: AddressStep) -> bool {
    if b.len() < end + 2 {
        r == AddressStep::Read((end + 2 - b.len()) as usize)
    } else {
        r matches AddressStep::Done { host: h, port } && h@ == host && port == net::be_value(
            b.subrange(end, end + 2),
        )
    }
}

/// What the address of a target comes to: a type, then four octets, a name
/// behind its length, or sixteen octets, then the port.
pub open spec fn is_address(b: Seq<u8>, r: AddressStep) -> bool {
    if b.len() == 0 {
        r == AddressStep::Read(1)
    } else if b[0] == 1 {
        if b.len() < 5 {
            r == AddressStep::Read((5 - b.len()) as usize)
        } else {
            is_port_step(b, 5, net::ip_text(net::octets_ip(b.subrange(1, 5))), r)
        }
    } else if b[0] == 4 {
        if b.len() < 17 {
            r == AddressStep::Read((17 - b.len()) as usize)
        } else {
            is_port_step(b, 17, net::ip_text(net::octets_ip(b.subrange(1, 17))), r)
        }
    } else if b[0] == 3 {
        if b.len() < 2 {
            r == AddressStep::Read(1)
        } else if b.len() < 2 + b[1] {
            r == AddressStep::Read((2 + b[1] - b.len()) as usize)
        } else if !valid_utf8(b.subrange(2, 2 + b[1])) {
            r == AddressStep::Bad(Socks5Error::BadName)
        } else {
            is_port_step(b, 2 + b[1], decode_utf8(b.subrange(2, 2 + b[1])), r)
        }
    } else {
        r == AddressStep::Bad(Socks5Error::BadAddressType(b[0]))
    }
}

fn port_step(b: &[u8], end: usize, host: String) -> (r: AddressStep)
    requires
        end <= b@.len(),
        end < 300,
    ensures
        is_port_step(b@, end as int, host@, r),
{
    if b.len() < end + 2 {
        return AddressStep::Read(end + 2 - b.len());
    }
    let word = vstd::slice::slice_subrange(b, end, end + 2);
    proof {
        net::lemma_be_value_fits(word@);
    }
    let port: u128 = net::read_be(word);
    AddressStep::Done { host, port: port as u16 }
}

/// What the address of a target comes to, as far as it has arrived.
pub fn read_socks5_addr(b: &[u8]) -> (r: AddressStep)
    ensures
        is_address(b@, r),
{
    if b.len() == 0 {
        return AddressStep::Read(1);
    }
    let kind: u8 = b[0];
    if kind == 1 {
        if b.len() < 5 {
            return AddressStep::Read(5 - b.len());
        }
        let octets = vstd::slice::slice_subrange(b, 1, 5);
        proof {
            net::lemma_be_value_fits(octets@);
        }
        let ip = IpAddr::V4(net::read_be(octets) as u32);
        return port_step(b, 5, net::ip_string(ip));
    }
    if kind == 4 {
        if b.len() < 17 {
            return AddressStep::Read(17 - b.len());
        }
        let octets = vstd::slice::slice_subrange(b, 1, 17);
        proof {
            net::lemma_be_value_fits(octets@);
        }
        let ip = IpAddr::V6(net::read_be(octets));
        return port_step(b, 17, net::ip_string(ip));
    }
    if kind == 3 {
        if b.len() < 2 {
            return AddressStep::Read(1);
        }
        let end: usize = 2 + b[1] as usize;
        if b.len() < end {
            return AddressStep::Read(end - b.len());
        }
        let name = vstd::slice::slice_subrange(b, 2, end);
        return match text::utf8_text(name) {
            Some(host) => port_step(b, end, host),
            None => AddressStep::Bad(Socks5Error::BadName),
        };
    }
    AddressStep::Bad(Socks5Error::BadAddressType(kind))
}

/// What a client's request comes to so far.
#[derive(Debug)]
pub enum Request {
    /// This many bytes more are to be read.
    Read(usize),
    /// The target is to be connected to.
    Connect { host: String, port: u16 },
    /// The client is not served; it is answered with these bytes, if any.
    Refuse { reply: Option<[u8; 10]>, error: Socks5Error },
}

/// Why a command other than to connect is refused.
pub open spec fn command_error(cmd: u8) -> Socks5Error {
    if cmd == 2 {
        Socks5Error::Bind
    } else if cmd == 3 {
        Socks5Error::UdpAssociate
    } else {
        Socks5Error::UnknownCommand(cmd)
    }
}

/// What a request comes to, given what its address comes to.
pub open spec fn is_connect(a: AddressStep, r: Request) -> bool {
    match a {
        AddressStep::Read(n) => r == Request::Read(n),
        AddressStep::Done { host, port } => r matches Request::Connect { host: h, port: p } && h@
            == host@ && p == port,
        AddressStep::Bad(e) => r == Request::Refuse { reply: None, error: e },
    }
}

/// What a request comes to: a version, a command, a byte that is not used,
/// and the address of the target. Only the command to connect is served.
pub open spec fn is_request(b: Seq<u8>, r: Request) -> bool {
    if b.len() == 0 {
        r == Request::Read(1)
    } else if b[0] != 5 {
        r == Request::Refuse { reply: None, error: Socks5Error::BadRequestVersion(b[0]) }
    } else if b.len() < 3 {
        r == Request::Read((3 - b.len()) as usize)
    } else if b[1] != 1 {
        r matches Request::Refuse { reply: Some(a), error } && a@ == reply_bytes(7) && error
            == command_error(b[1])
    } else {
        exists|a: AddressStep| #[trigger] is_address(b.skip(3), a) && is_connect(a, r)
    }
}

/// What a client's request comes to, as far as it has arrived.
pub fn request_step(b: &[u8]) -> (r: Request)
    ensures
        is_request(b@, r),
{
    if b.len() == 0 {
        return Request::Read(1);
    }
    if b[0] != 5 {
        return Request::Refuse { reply: None, error: Socks5Error::BadRequestVersion(b[0]) };
    }
    if b.len() < 3 {
        return Request::Read(3 - b.len());
    }
    let cmd: u8 = b[1];
    if cmd != 1 {
        let error = if cmd == 2 {
            Socks5Error::Bind
        } else if cmd == 3 {
            Socks5Error::UdpAssociate
        } else {
            Socks5Error::UnknownCommand(cmd)
        };
        return Request::Refuse { reply: Some(socks5_reply(7)), error };
    }
    let rest = vstd::slice::slice_subrange(b, 3, b.len());
    assert(rest@ =~= b@.skip(3));
    let step = read_socks5_addr(rest);
    assert(is_address(b@.skip(3), step));
    match step {
        AddressStep::Read(n) => Request::Read(n),
        AddressStep::Done { host, port } => Request::Connect { host, port },
        AddressStep::Bad(e) => Request::Refuse { reply: None, error: e },
    }
}

/// A name that a client writes is the name that is connected to, with its
/// port.
pub proof fn law_name_is_read_back(host: Seq<char>, port: u16, r: AddressStep)
    requires
        encode_utf8(host).len() <= 255,
        is_address(
            seq![3u8, encode_utf8(host).len() as u8] + encode_utf8(host) + net::be_bytes(
                port as nat,
                2,
            ),
            r,
        ),
    ensures
        r matches AddressStep::Done { host: h, port: p } && h@ == host && p == port,
{
    let name = encode_utf8(host);
    let tail = net::be_bytes(port as nat, 2);
    let b = seq![3u8, name.len() as u8] + name + tail;
    net::lemma_be_bytes_len(port as nat, 2);
    net::lemma_powers_of_256();
    net::lemma_be_round_trip(port as nat, 2);
    encode_utf8_valid_utf8(host);
    encode_utf8_decode_utf8(host);
    let n = name.len() as int;
    assert(b.subrange(2, 2 + n) =~= name);
    assert(b.subrange(2 + n, 2 + n + 2) =~= tail);
}

/// An address that a client writes in octets is connected to as text.
pub proof fn law_octets_are_read_back(ip: IpAddr, port: u16, r: AddressStep)
    requires
        is_address(
            (match ip {
                IpAddr::V4(v) => seq![1u8] + net::be_bytes(v as nat, 4),
                IpAddr::V6(v) => seq![4u8] + net::be_bytes(v as nat, 16),
            }) + net::be_bytes(port as nat, 2),
            r,
        ),
    ensures
        r matches AddressStep::Done { host: h, port: p } && h@ == net::ip_text(ip) && p == port,
{
    let (tag, octets) = match ip {
        IpAddr::V4(v) => (1u8, net::be_bytes(v as nat, 4)),
        IpAddr::V6(v) => (4u8, net::be_bytes(v as nat, 16)),
    };
    let tail = net::be_bytes(port as nat, 2);
    let b = seq![tag] + octets + tail;
    net::lemma_powers_of_256();
    net::lemma_be_bytes_len(port as nat, 2);
    net::lemma_be_round_trip(port as nat, 2);
    match ip {
        IpAddr::V4(v) => {
            net::lemma_be_bytes_len(v as nat, 4);
            net::lemma_be_round_trip(v as nat, 4);
            assert(b.subrange(1, 5) =~= octets);
            assert(b.subrange(5, 7) =~= tail);
        },
        IpAddr::V6(v) => {
            net::lemma_be_bytes_len(v as nat, 16);
            net::lemma_be_round_trip(v as nat, 16);
            assert(b.subrange(1, 17) =~= octets);
            assert(b.subrange(17, 19) =~= tail);
        },
    }
}

// ---------------------------------------------------------------------------
// Whole exchanges
// ---------------------------------------------------------------------------

/// A client that offers to do without authentication, among whatever other
/// methods and at whatever place, is served; one that does not is refused.
pub proof fn law_free_access_is_accepted(methods: Seq<u8>, r: Greeting)
    requires
        methods.len() <= 255,
        is_greeting(seq![5u8, methods.len() as u8] + methods, r),
    ensures
        (exists|i: int| 0 <= i < methods.len() && #[trigger] methods[i] == 0) ==> (
        r matches Greeting::Accept(a) && a@ == seq![5u8, 0u8]),
        (forall|i: int| 0 <= i < methods.len() ==> #[trigger] methods[i] != 0) ==> (
        r matches Greeting::Refuse { reply: Some(a), error } && a@ == seq![5u8, 0xffu8]
            && error is NoAcceptableMethod),
{
    let b = seq![5u8, methods.len() as u8] + methods;
    assert(b.subrange(2, 2 + b[1]) =~= methods);
    if exists|i: int| 0 <= i < methods.len() && #[trigger] methods[i] == 0 {
        let i = choose|i: int| 0 <= i < methods.len() && #[trigger] methods[i] == 0;
        assert(methods.contains(methods[i]));
    }
}

/// Of a greeting that has not arrived in full, more is read, and never a byte
/// behind it.
pub proof fn law_greeting_is_read_exactly(methods: Seq<u8>, n: int, r: Greeting)
    requires
        methods.len() <= 255,
        0 <= n < 2 + methods.len(),
        is_greeting((seq![5u8, methods.len() as u8] + methods).take(n), r),
    ensures
        r matches Greeting::Read(k) && 0 < k && n + k <= 2 + methods.len(),
{
}

/// A client that speaks another version gets no answer.
pub proof fn law_other_versions_get_no_answer(b: Seq<u8>, g: Greeting, q: Request)
    requires
        b.len() > 0,
        b[0] != 5,
        is_greeting(b, g),
        is_request(b, q),
    ensures
        g matches Greeting::Refuse { reply, error } && reply is None && error
            == Socks5Error::BadVersion(b[0]),
        q matches Request::Refuse { reply, error } && reply is None && error
            == Socks5Error::BadRequestVersion(b[0]),
{
}

/// A target as a client writes it.
pub enum Wanted {
    Address(IpAddr),
    Name(Seq<char>),
}

/// A target and its port on the wire: a one and four octets, a four and
/// sixteen, or a three, a length and a name; then the port in two bytes, the
/// high one first.
pub open spec fn wanted_bytes(w: Wanted, port: u16) -> Seq<u8> {
    (match w {
        Wanted::Address(IpAddr::V4(v)) => seq![1u8] + net::be_bytes(v as nat, 4),
        Wanted::Address(IpAddr::V6(v)) => seq![4u8] + net::be_bytes(v as nat, 16),
        Wanted::Name(host) => seq![3u8, encode_utf8(host).len() as u8] + encode_utf8(host),
    }) + seq![(port / 256) as u8, (port % 256) as u8]
}

/// The text that a target is connected by: the address as text, or the name.
pub open spec fn wanted_text(w: Wanted) -> Seq<char> {
    match w {
        Wanted::Address(ip) => net::ip_text(ip),
        Wanted::Name(host) => host,
    }
}

proof fn lemma_two_bytes(port: u16)
    ensures
        net::be_bytes(port as nat, 2) == seq![(port / 256) as u8, (port % 256) as u8],
{
    reveal_with_fuel(net::be_bytes, 3);
    assert(net::be_bytes(port as nat, 2) =~= seq![(port / 256) as u8, (port % 256) as u8]);
}

/// A client that asks to be connected is connected to the host and the port
/// that it wrote.
pub proof fn law_request_connects_to_its_target(reserved: u8, w: Wanted, port: u16, r: Request)
    requires
        w matches Wanted::Name(host) ==> encode_utf8(host).len() <= 255,
        is_request(seq![5u8, 1u8, reserved] + wanted_bytes(w, port), r),
    ensures
        r matches Request::Connect { host: h, port: p } && h@ == wanted_text(w) && p == port,
{
    let b = seq![5u8, 1u8, reserved] + wanted_bytes(w, port);
    assert(b.skip(3) =~= wanted_bytes(w, port));
    let a = choose|a: AddressStep| #[trigger] is_address(b.skip(3), a) && is_connect(a, r);
    lemma_two_bytes(port);
    match w {
        Wanted::Address(ip) => law_octets_are_read_back(ip, port, a),
        Wanted::Name(host) => law_name_is_read_back(host, port, a),
    }
}

/// Of a request that has not arrived in full, more is read, and never a byte
/// behind it: what follows belongs to the target.
pub proof fn law_request_is_read_exactly(reserved: u8, w: Wanted, port: u16, n: int, r: Request)
    requires
        w matches Wanted::Name(host) ==> encode_utf8(host).len() <= 255,
        0 <= n < 3 + wanted_bytes(w, port).len(),
        is_request((seq![5u8, 1u8, reserved] + wanted_bytes(w, port)).take(n), r),
    ensures
        r matches Request::Read(k) && 0 < k && n + k <= 3 + wanted_bytes(w, port).len(),
{
    let whole = seq![5u8, 1u8, reserved] + wanted_bytes(w, port);
    let b = whole.take(n);
    lemma_two_bytes(port);
    match w {
        Wanted::Address(IpAddr::V4(v)) => net::lemma_be_bytes_len(v as nat, 4),
        Wanted::Address(IpAddr::V6(v)) => net::lemma_be_bytes_len(v as nat, 16),
        Wanted::Name(host) => {
            encode_utf8_valid_utf8(host);
            let name = encode_utf8(host);
            if n >= 5 + name.len() {
                assert(b.skip(3).subrange(2, (2 + name.len()) as int) =~= name);
            }
        },
    }
    if n >= 3 {
        let a = choose|a: AddressStep| #[trigger] is_address(b.skip(3), a) && is_connect(a, r);
        assert(b.skip(3) =~= wanted_bytes(w, port).take(n - 3));
    }
}

/// Any other command is refused with the code for that, whatever its target.
pub proof fn law_other_commands_are_refused(cmd: u8, reserved: u8, rest: Seq<u8>, r: Request)
    requires
        cmd != 1,
        is_request(seq![5u8, cmd, reserved] + rest, r),
    ensures
        r matches Request::Refuse { reply: Some(a), error } && a@ == seq![
            5u8,
            7u8,
            0u8,
            1u8,
            0u8,
            0u8,
            0u8,
            0u8,
            0u8,
            0u8,
        ] && (error is Bind == (cmd == 2)) && (error is UdpAssociate == (cmd == 3)),
{
}

/// A client is told how its connection went: version, a code that is zero only
/// where it stands, and an address of zeros.
pub proof fn law_answer_says_how_it_went(connected: bool)
    ensures
        ({
            let a = connect_answer(connected);
            &&& a.len() == 10
            &&& a[0] == 5
            &&& a[1] == (if connected {
                0u8
            } else {
                4u8
            })
            &&& a[2] == 0
            &&& a[3] == 1
            &&& forall|i: int| 4 <= i < 10 ==> #[trigger] a[i] == 0
        }),
{
}

} // verus!
