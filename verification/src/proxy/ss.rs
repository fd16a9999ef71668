//! The Shadowsocks protocol.

use vstd::prelude::*;

use crate::net;
use crate::net::SocketAddr;
use crate::text;

verus! {

broadcast use {
    vstd::seq::group_seq_axioms,
    vstd::slice::group_slice_axioms,
    vstd::string::group_string_axioms,
    vstd::std_specs::vec::group_vec_axioms,
};

/// What can go wrong with a Shadowsocks server.
#[derive(Debug)]
pub enum SsError {
    UnknownCipher(String),
    /// With what is wrong with the password.
    InvalidConfig(String),
}

impl SsError {
    /// The text that is shown for the error.
    pub open spec fn text(self) -> Seq<char> {
        match self {
            SsError::UnknownCipher(c) => "Unknown SS cipher: "@ + c@,
            SsError::InvalidConfig(e) => "Invalid SS server config: "@ + e@,
        }
    }

    /// The text that is shown for the error.
    pub fn message(&self) -> (r: String)
        ensures
            r@ == self.text(),
    {
        let mut out: Vec<char> = Vec::new();
        match self {
            SsError::UnknownCipher(c) => {
                text::append_str(&mut out, "Unknown SS cipher: ");
                text::append_str(&mut out, c.as_str());
            },
            SsError::InvalidConfig(e) => {
                text::append_str(&mut out, "Invalid SS server config: ");
                text::append_str(&mut out, e.as_str());
            },
        }
        assert(out@ =~= self.text());
        text::string_of(out.as_slice())
    }
}

/// The cipher is one that takes a key in Base64 as its password.
pub open spec fn takes_key(cipher: Seq<char>) -> bool {
    ||| cipher == "2022-blake3-aes-128-gcm"@
    ||| cipher == "2022-blake3-aes-256-gcm"@
    ||| cipher == "2022-blake3-chacha20-poly1305"@
}

/// The cipher is one that derives its key from the password.
pub open spec fn derives_key(cipher: Seq<char>) -> bool {
    ||| cipher == "plain"@
    ||| cipher == "none"@
    ||| cipher == "aes-128-gcm"@
    ||| cipher == "aes-256-gcm"@
    ||| cipher == "chacha20-ietf-poly1305"@
}

/// The name, in lower case, is that of a cipher.
pub open spec fn is_cipher(name: Seq<char>) -> bool {
    takes_key(text::folded(name)) || derives_key(text::folded(name))
}

/// `shadowsocks::crypto::CipherKind::from_str`: succeeds on the names of
/// ciphers in any case.
#[verifier::external_body]
pub(crate) fn cipher_known(name: &str) -> (r: bool)
    ensures
        r == is_cipher(name@),
{
    <shadowsocks::crypto::CipherKind as std::str::FromStr>::from_str(name).is_ok()
}

/// What is wrong with a password under a cipher.
pub uninterp spec fn password_complaint(cipher: Seq<char>, password: Seq<char>) -> Option<Seq<char>>;

/// `shadowsocks::ServerConfig::new`: fails where the password is not a key
/// that fits the cipher, with a text that depends on both alone, whatever the
/// address. A cipher that derives its key takes every password.
#[verifier::external_body]
pub(crate) fn config_complaint(server: &str, port: u16, cipher: &str, password: &str) -> (r: Option<
    String,
>)
    requires
        is_cipher(cipher@),
    ensures
        r is Some == password_complaint(cipher@, password@) is Some,
        r matches Some(e) ==> password_complaint(cipher@, password@) == Some(e@),
        derives_key(text::folded(cipher@)) ==> r is None,
{
    match <shadowsocks::crypto::CipherKind as std::str::FromStr>::from_str(cipher) {
        Ok(method) => shadowsocks::ServerConfig::new((server.to_string(), port), password, method)
            .err()
            .map(|e| e.to_string()),
        Err(e) => Some(e.to_string()),
    }
}

/// A Shadowsocks server.
#[derive(Debug)]
pub struct SsOutbound {
    pub server: String,
    pub port: u16,
    pub cipher: String,
    pub password: String,
}

/// What is wrong with a cipher and a password.
pub open spec fn config_error(cipher: Seq<char>, password: Seq<char>) -> Option<Seq<char>> {
    if !is_cipher(cipher) {
        Some("Unknown SS cipher: "@ + cipher)
    } else {
        match password_complaint(cipher, password) {
            Some(e) => Some("Invalid SS server config: "@ + e),
            None => None,
        }
    }
}

impl SsOutbound {
    /// The values are those that were given.
    pub open spec fn is_for(self, server: Seq<char>, port: u16, cipher: Seq<char>, password: Seq<char>) -> bool {
        &&& self.server@ == server
        &&& self.port == port
        &&& self.cipher@ == cipher
        &&& self.password@ == password
    }

    /// A server, unless the cipher is not known or the password does not fit.
    pub fn new(server: &str, port: u16, cipher: &str, password: &str) -> (r: Result<Self, SsError>)
        ensures
            match config_error(cipher@, password@) {
                None => r matches Ok(o) && o.is_for(server@, port, cipher@, password@),
                Some(t) => r matches Err(e) && e.text() == t && (e is UnknownCipher == !is_cipher(
                    cipher@,
                )),
            },
    {
        if !cipher_known(cipher) {
            return Err(SsError::UnknownCipher(text::string_of(text::chars_of(cipher).as_slice())));
        }
        match config_complaint(server, port, cipher, password) {
            None => Ok(
                SsOutbound {
                    server: text::string_of(text::chars_of(server).as_slice()),
                    port,
                    cipher: text::string_of(text::chars_of(cipher).as_slice()),
                    password: text::string_of(text::chars_of(password).as_slice()),
                },
            ),
            Some(e) => Err(SsError::InvalidConfig(e)),
        }
    }
}

/// Where a stream is to go.
#[derive(Debug)]
pub enum SsTarget {
    SocketAddress(SocketAddr),
    DomainNameAddress(String, u16),
}

/// Where a stream is to go: an address literal, with or without brackets, as
/// an address, anything else as a name.
pub open spec fn is_target(r: SsTarget, host: Seq<char>, port: u16) -> bool {
    match net::ip_of(text::unbracketed(host)) {
        Some(ip) => r == SsTarget::SocketAddress(SocketAddr { ip, port }),
        None => r matches SsTarget::DomainNameAddress(h, p) && h@ == host && p == port,
    }
}

/// Where a stream is to go.
pub fn target_address(host: &str, port: u16) -> (r: SsTarget)
    ensures
        is_target(r, host@, port),
{
    let chars = text::chars_of(host);
    match net::parse_ip_chars(text::trim_brackets(chars.as_slice())) {
        Some(ip) => SsTarget::SocketAddress(SocketAddr { ip, port }),
        None => SsTarget::DomainNameAddress(text::string_of(chars.as_slice()), port),
    }
}

/// The name of a cipher as the protocol has it.
pub open spec fn normal_cipher(cipher: Seq<char>) -> Seq<char> {
    if cipher == "chacha20-poly1305"@ {
        "chacha20-ietf-poly1305"@
    } else {
        cipher
    }
}

/// The name of a cipher as the protocol has it: one is also known by a
/// shorter name, the others stay as they are.
pub fn normalize_ss_cipher(cipher: &str) -> (r: &str)
    ensures
        r@ == normal_cipher(cipher@),
{
    if text::str_eq(cipher, "chacha20-poly1305") {
        "chacha20-ietf-poly1305"
    } else {
        cipher
    }
}

/// To normalise a name twice is to normalise it once.
pub proof fn law_normal_cipher_is_stable(cipher: Seq<char>)
    ensures
        normal_cipher(normal_cipher(cipher)) == normal_cipher(cipher),
{
    reveal_strlit("chacha20-poly1305");
    reveal_strlit("chacha20-ietf-poly1305");
    assert("chacha20-poly1305"@.len() != "chacha20-ietf-poly1305"@.len());
}

/// An address, in brackets or not, goes out as that address, with the port that
/// was asked for; and what is no address goes out as the name that it is.
pub proof fn law_targets_keep_host_and_port(
    ip: net::IpAddr,
    name: Seq<char>,
    port: u16,
    a: SsTarget,
    b: SsTarget,
    c: SsTarget,
)
    requires
        is_target(a, net::ip_text(ip), port),
        is_target(b, seq!['['] + net::ip_text(ip) + seq![']'], port),
        net::ip_of(text::unbracketed(name)) is None,
        is_target(c, name, port),
    ensures
        a == SsTarget::SocketAddress(SocketAddr { ip, port }),
        b == SsTarget::SocketAddress(SocketAddr { ip, port }),
        c matches SsTarget::DomainNameAddress(h, p) && h@ == name && p == port,
{
    let s = net::ip_text(ip);
    net::law_ip_text_is_read_back(ip);
    net::lemma_ip_of_address(s);
    if s.len() > 0 {
        assert(net::in_address(s[0]));
        assert(net::in_address(s[s.len() - 1]));
    }
    text::lemma_no_brackets(s);
}

/// Every cipher that a server may use is known by its name in any case, and the short name of
/// one of them is taken for its full name.
pub proof fn law_names_of_ciphers(name: Seq<char>, password: Seq<char>)
    ensures
        text::folded(name) == "aes-128-gcm"@ || text::folded(name) == "aes-256-gcm"@ || text::folded(
            name,
        ) == "chacha20-ietf-poly1305"@ || text::folded(name) == "2022-blake3-aes-128-gcm"@
            || text::folded(name) == "2022-blake3-aes-256-gcm"@ || text::folded(name)
            == "2022-blake3-chacha20-poly1305"@ ==> config_error(name, password)
            == match password_complaint(name, password) {
            Some(e) => Some("Invalid SS server config: "@ + e),
            None => None,
        },
        text::folded(name) == "rc4-md5"@ || text::folded(name) == "aes-128-cfb"@ || text::folded(
            name,
        ) == "aes-256-cfb"@ ==> config_error(name, password) == Some("Unknown SS cipher: "@ + name),
        name != "chacha20-poly1305"@ ==> normal_cipher(name) == name,
        normal_cipher("chacha20-poly1305"@) == "chacha20-ietf-poly1305"@,
{
    reveal_strlit("aes-128-gcm");
    reveal_strlit("aes-256-gcm");
    reveal_strlit("chacha20-ietf-poly1305");
    reveal_strlit("2022-blake3-aes-128-gcm");
    reveal_strlit("2022-blake3-aes-256-gcm");
    reveal_strlit("2022-blake3-chacha20-poly1305");
    reveal_strlit("plain");
    reveal_strlit("none");
    reveal_strlit("rc4-md5");
    reveal_strlit("aes-128-cfb");
    reveal_strlit("aes-256-cfb");
    let n = text::folded(name);
    assert(n == "rc4-md5"@ ==> n.len() == 7 && n[0] == 'r');
    assert(n == "aes-128-cfb"@ ==> n.len() == 11 && n[8] == 'c');
    assert(n == "aes-256-cfb"@ ==> n.len() == 11 && n[8] == 'c');
}

} // verus!
