//! The proxy settings of the system.

use vstd::prelude::*;

use crate::net;
use crate::platform::Platform;
use crate::text;

verus! {

broadcast use {
    vstd::seq::group_seq_axioms,
    vstd::slice::group_slice_axioms,
    vstd::string::group_string_axioms,
    vstd::std_specs::vec::group_vec_axioms,
};

/// The targets that do not use the proxy.
pub const DEFAULT_BYPASS: &'static str = "localhost,127.0.0.1,::1";

/// The same as Windows writes them.
pub const WINDOWS_BYPASS: &'static str = "localhost;127.0.0.1;::1;<local>";

/// The targets that do not use the proxy, as a platform writes them.
pub open spec fn bypass_text(platform: Platform) -> Seq<char> {
    if platform == Platform::Windows {
        WINDOWS_BYPASS@
    } else {
        DEFAULT_BYPASS@
    }
}

/// The targets that do not use the proxy, as a platform writes them.
pub fn platform_bypass(platform: Platform) -> (r: &'static str)
    ensures
        r@ == bypass_text(platform),
{
    match platform {
        Platform::Windows => WINDOWS_BYPASS,
        _ => DEFAULT_BYPASS,
    }
}

/// The proxy settings of the system.
#[derive(Debug, Clone, PartialEq, Eq)]
pub struct SystemProxyConfig {
    pub enabled: bool,
    pub host: String,
    pub port: u16,
    pub bypass: String,
}

impl SystemProxyConfig {
    /// No proxy.
    pub fn disabled() -> (r: Self)
        ensures
            !r.enabled,
            r.host@ == Seq::<char>::empty(),
            r.port == 0,
            r.bypass@ == Seq::<char>::empty(),
    {
        SystemProxyConfig {
            enabled: false,
            host: text::string_of(Vec::new().as_slice()),
            port: 0,
            bypass: text::string_of(Vec::new().as_slice()),
        }
    }

    /// The settings as the system holds them.
    pub fn from_parts(enabled: bool, host: String, port: u16, bypass: String) -> (r: Self)
        ensures
            r == (SystemProxyConfig { enabled, host, port, bypass }),
    {
        SystemProxyConfig { enabled, host, port, bypass }
    }
}

// ---------------------------------------------------------------------------
// Reading
// ---------------------------------------------------------------------------

/// How the reading of the settings failed.
#[derive(Debug)]
pub enum ReadFailure {
    /// The settings are there and cannot be read as an address.
    Unparsable,
    /// There are no settings.
    Missing,
    /// Anything else, with its text.
    Other(String),
}

/// What follows from a reading that failed.
#[derive(Debug)]
pub enum ReadOutcome {
    /// The raw values are to be read and understood as far as they go.
    ReadRaw,
    Config(SystemProxyConfig),
    Error(String),
}

/// No proxy.
pub open spec fn is_disabled(c: SystemProxyConfig) -> bool {
    !c.enabled && c.host@.len() == 0 && c.port == 0 && c.bypass@.len() == 0
}

/// What follows from a reading: no settings, and elsewhere than on Windows
/// settings that cannot be read, count as no proxy.
pub open spec fn is_read_outcome(
    platform: Platform,
    read: Result<SystemProxyConfig, ReadFailure>,
    r: ReadOutcome,
) -> bool {
    match read {
        Ok(c) => r == ReadOutcome::Config(c),
        Err(ReadFailure::Unparsable) => if platform == Platform::Windows {
            r is ReadRaw
        } else {
            r matches ReadOutcome::Config(c) && is_disabled(c)
        },
        Err(ReadFailure::Missing) => r matches ReadOutcome::Config(c) && is_disabled(c),
        Err(ReadFailure::Other(e)) => r matches ReadOutcome::Error(t) && t@
            == "failed to read system proxy: "@ + e@,
    }
}

/// What follows from a reading.
pub fn get_system_proxy(platform: Platform, read: Result<SystemProxyConfig, ReadFailure>) -> (r:
    ReadOutcome)
    ensures
        is_read_outcome(platform, read, r),
{
    match read {
        Ok(c) => ReadOutcome::Config(c),
        Err(ReadFailure::Unparsable) => match platform {
            Platform::Windows => ReadOutcome::ReadRaw,
            _ => ReadOutcome::Config(SystemProxyConfig::disabled()),
        },
        Err(ReadFailure::Missing) => ReadOutcome::Config(SystemProxyConfig::disabled()),
        Err(ReadFailure::Other(e)) => {
            let mut out: Vec<char> = Vec::new();
            text::append_str(&mut out, "failed to read system proxy: ");
            text::append_str(&mut out, e.as_str());
            assert(out@ =~= "failed to read system proxy: "@ + e@);
            ReadOutcome::Error(text::string_of(out.as_slice()))
        },
    }
}

/// Host and port of a text: what stands before and behind the last colon,
/// the host without brackets.
pub open spec fn host_and_port(value: Seq<char>) -> Option<(Seq<char>, u16)> {
    let i = text::last_index(value, ':');
    if i < 0 {
        None
    } else {
        let host = text::unbracketed(text::trimmed(value.take(i)));
        match text::parsed_uint(text::trimmed(value.skip(i + 1)), 10, 65535) {
            Some(p) => if host.len() == 0 {
                None
            } else {
                Some((host, p as u16))
            },
            None => None,
        }
    }
}

/// An optional host and port.
pub open spec fn opt_pair(v: Option<(String, u16)>) -> Option<(Seq<char>, u16)> {
    match v {
        Some(p) => Some((p.0@, p.1)),
        None => None,
    }
}

fn parse_host_port(value: &[char]) -> (r: Option<(String, u16)>)
    ensures
        opt_pair(r) == host_and_port(value@),
{
    let i: usize = match text::rfind_char(value, ':') {
        Some(i) => i,
        None => {
            return None;
        },
    };
    assert(value.len() == value@.len());
    let head = vstd::slice::slice_subrange(value, 0, i);
    let tail = vstd::slice::slice_subrange(value, i + 1, value.len());
    assert(head@ =~= value@.take(i as int));
    assert(tail@ =~= value@.skip(i + 1));
    let host = text::trim_brackets(text::trim(head));
    match text::parse_uint(text::trim(tail), 10, 65535) {
        Some(p) => if host.len() == 0 {
            None
        } else {
            Some((text::string_of(host), p as u16))
        },
        None => None,
    }
}

/// The value of an entry `key=value`, without spaces around it, if the key is
/// the wanted one in any case. Every key will do where none is wanted.
pub open spec fn entry_value(part: Seq<char>, wanted: Option<Seq<char>>) -> Option<Seq<char>> {
    let i = text::first_index(part, '=');
    if i < part.len() && (wanted is None || text::same_ignoring_case(
        text::trimmed(part.take(i)),
        wanted->0,
    )) {
        Some(text::trimmed(part.skip(i + 1)))
    } else {
        None
    }
}

/// The value of the first entry with the wanted key.
pub open spec fn first_value(parts: Seq<Seq<char>>, wanted: Option<Seq<char>>) -> Option<Seq<char>>
    decreases parts.len(),
{
    if parts.len() == 0 {
        None
    } else {
        match entry_value(parts[0], wanted) {
            Some(v) => Some(v),
            None => first_value(parts.drop_first(), wanted),
        }
    }
}

/// Host and port of the proxy that Windows holds: one for all, or one for
/// each protocol, of which that for HTTPS counts first, then that for HTTP,
/// then the first.
pub open spec fn server_of(server: Seq<char>) -> Option<(Seq<char>, u16)> {
    let s = text::trimmed(server);
    if s.len() == 0 {
        None
    } else if text::contains_text(s, seq!['=']) {
        let parts = text::split_on(s, ';');
        let value = match first_value(parts, Some("https"@)) {
            Some(v) => Some(v),
            None => match first_value(parts, Some("http"@)) {
                Some(v) => Some(v),
                None => first_value(parts, None),
            },
        };
        match value {
            Some(v) => host_and_port(v),
            None => None,
        }
    } else {
        host_and_port(s)
    }
}

/// An optional text.
pub open spec fn opt_chars(v: Option<Vec<char>>) -> Option<Seq<char>> {
    match v {
        Some(c) => Some(c@),
        None => None,
    }
}

fn find_value(parts: &Vec<Vec<char>>, wanted: Option<&str>) -> (r: Option<Vec<char>>)
    ensures
        opt_chars(r) == first_value(text::texts(parts@), text::opt_chars(wanted)),
{
    let ghost all = text::texts(parts@);
    let mut i: usize = 0;
    assert(all.skip(0) =~= all);
    while i < parts.len()
        invariant
            i <= parts@.len(),
            all == text::texts(parts@),
            first_value(all, text::opt_chars(wanted)) == first_value(all.skip(i as int), text::opt_chars(wanted)),
        decreases parts@.len() - i,
    {
        let part = parts[i].as_slice();
        assert(all.skip(i as int)[0] == part@);
        let k: usize = text::find_char(part, '=');
        if k < part.len() {
            let key = vstd::slice::slice_subrange(part, 0, k);
            let value = vstd::slice::slice_subrange(part, k + 1, part.len());
            assert(key@ =~= part@.take(k as int));
            assert(value@ =~= part@.skip(k + 1));
            let fits = match wanted {
                Some(w) => text::eq_ignore_case_str(text::trim(key), w),
                None => true,
            };
            if fits {
                let mut out: Vec<char> = Vec::new();
                text::append_chars(&mut out, text::trim(value));
                assert(out@ =~= text::trimmed(part@.skip(k + 1)));
                return Some(out);
            }
        }
        assert(all.skip(i as int).drop_first() =~= all.skip(i + 1));
        i = i + 1;
    }
    None
}

/// Host and port of the proxy that Windows holds.
pub fn parse_proxy_server(server: &str) -> (r: Option<(String, u16)>)
    ensures
        opt_pair(r) == server_of(server@),
{
    let chars = text::chars_of(server);
    let s = text::trim(chars.as_slice());
    if s.len() == 0 {
        return None;
    }
    let sign = ['='];
    assert(sign@ =~= seq!['=']);
    if !text::contains(s, sign.as_slice()) {
        return parse_host_port(s);
    }
    let parts = text::split(s, ';');
    let value = match find_value(&parts, Some("https")) {
        Some(v) => v,
        None => match find_value(&parts, Some("http")) {
            Some(v) => v,
            None => match find_value(&parts, None) {
                Some(v) => v,
                None => {
                    return None;
                },
            },
        },
    };
    parse_host_port(value.as_slice())
}

/// The settings that Windows holds, understood as far as they go: a server
/// that cannot be read leaves host and port empty.
pub fn tolerant_config(proxy_enable: u32, server: &str, bypass: String) -> (r: SystemProxyConfig)
    ensures
        r.enabled == (proxy_enable == 1),
        r.bypass == bypass,
        match server_of(server@) {
            Some((h, p)) => r.host@ == h && r.port == p,
            None => r.host@.len() == 0 && r.port == 0,
        },
{
    match parse_proxy_server(server) {
        Some((host, port)) => SystemProxyConfig { enabled: proxy_enable == 1, host, port, bypass },
        None => SystemProxyConfig {
            enabled: proxy_enable == 1,
            host: text::string_of(Vec::new().as_slice()),
            port: 0,
            bypass,
        },
    }
}

// ---------------------------------------------------------------------------
// Writing
// ---------------------------------------------------------------------------

/// A host as it stands before a port: an IPv6 address in brackets.
pub open spec fn bracketed(host: Seq<char>) -> Seq<char> {
    if net::v6_groups(host) is Some {
        seq!['['] + host + seq![']']
    } else {
        host
    }
}

/// A host as it stands before a port: an IPv6 address in brackets.
pub fn bracket_ipv6_host(host: &str) -> (r: String)
    ensures
        r@ == bracketed(host@),
{
    let chars = text::chars_of(host);
    if net::parse_v6(chars.as_slice()).is_none() {
        return text::string_of(chars.as_slice());
    }
    let mut out: Vec<char> = Vec::new();
    out.push('[');
    text::append_chars(&mut out, chars.as_slice());
    out.push(']');
    assert(out@ =~= bracketed(host@));
    text::string_of(out.as_slice())
}

/// Why the settings are not written.
#[derive(Debug)]
pub enum WriteError {
    Unsupported,
    EmptyHost,
}

impl WriteError {
    /// The text that is shown for the error.
    pub open spec fn text(self) -> Seq<char> {
        match self {
            WriteError::Unsupported => "system proxy is not supported on this platform"@,
            WriteError::EmptyHost => "system proxy host cannot be empty"@,
        }
    }

    /// The text that is shown for the error.
    pub fn message(&self) -> (r: &'static str)
        ensures
            r@ == self.text(),
    {
        match self {
            WriteError::Unsupported => "system proxy is not supported on this platform",
            WriteError::EmptyHost => "system proxy host cannot be empty",
        }
    }
}

/// The host that clients can connect to: the loopback where the proxy listens
/// on all addresses.
pub open spec fn reachable_host(host: Seq<char>) -> Seq<char> {
    let h = text::trimmed(host);
    if h == "0.0.0.0"@ || h == "::"@ {
        "127.0.0.1"@
    } else {
        h
    }
}

/// The settings to be written for a proxy.
pub open spec fn is_setting(
    r: Result<SystemProxyConfig, WriteError>,
    platform: Platform,
    supported: bool,
    host: Seq<char>,
    port: u16,
    bypass: Seq<char>,
) -> bool {
    if !supported {
        r == Err::<SystemProxyConfig, WriteError>(WriteError::Unsupported)
    } else if text::trimmed(host).len() == 0 {
        r == Err::<SystemProxyConfig, WriteError>(WriteError::EmptyHost)
    } else {
        r matches Ok(c) && c.enabled && c.port == port && c.bypass@ == bypass && c.host@ == (
        if platform == Platform::Windows {
            bracketed(reachable_host(host))
        } else {
            reachable_host(host)
        })
    }
}

/// `sysproxy::Sysproxy::is_support`: the system has settings that can be
/// written. Which systems have is left to the crate.
#[verifier::external_body]
pub fn system_proxy_supported() -> (r: bool) {
    sysproxy::Sysproxy::is_support()
}

/// Settings can be read and written where the system has any.
pub fn supported_or_error(supported: bool) -> (r: Result<(), WriteError>)
    ensures
        r is Ok == supported,
        r matches Err(e) ==> e is Unsupported,
{
    if supported {
        Ok(())
    } else {
        Err(WriteError::Unsupported)
    }
}

/// Whether the system has settings that can be read and written. Which
/// systems have is left to the crate that reads and writes them.
pub fn ensure_supported() -> (r: Result<(), WriteError>)
    ensures
        r matches Err(e) ==> e is Unsupported,
{
    supported_or_error(system_proxy_supported())
}

/// The settings to be written for a proxy, with the usual exceptions.
pub fn set_system_proxy(platform: Platform, host: &str, port: u16) -> (r: Result<
    SystemProxyConfig,
    WriteError,
>)
    ensures
        exists|supported: bool|
            #[trigger] is_setting(r, platform, supported, host@, port, bypass_text(platform)),
{
    set_system_proxy_with_bypass(platform, host, port, platform_bypass(platform))
}

/// The settings to be written for a proxy.
pub fn set_system_proxy_with_bypass(platform: Platform, host: &str, port: u16, bypass: &str) -> (r:
    Result<SystemProxyConfig, WriteError>)
    ensures
        exists|supported: bool| is_setting(r, platform, supported, host@, port, bypass@),
{
    let supported: bool = system_proxy_supported();
    let r = proxy_setting(platform, supported, host, port, bypass);
    assert(is_setting(r, platform, supported, host@, port, bypass@));
    r
}

/// The settings to be written for a proxy, where it is known whether the
/// system takes any.
pub fn proxy_setting(
    platform: Platform,
    supported: bool,
    host: &str,
    port: u16,
    bypass: &str,
) -> (r: Result<SystemProxyConfig, WriteError>)
    ensures
        is_setting(r, platform, supported, host@, port, bypass@),
{
    if !supported {
        return Err(WriteError::Unsupported);
    }
    let chars = text::chars_of(host);
    let trimmed = text::trim(chars.as_slice());
    if trimmed.len() == 0 {
        return Err(WriteError::EmptyHost);
    }
    let mut name = text::string_of(trimmed);
    if text::str_eq(name.as_str(), "0.0.0.0") || text::str_eq(name.as_str(), "::") {
        name = text::string_of(text::chars_of("127.0.0.1").as_slice());
    }
    let shown = match platform {
        Platform::Windows => bracket_ipv6_host(name.as_str()),
        _ => name,
    };
    Ok(
        SystemProxyConfig {
            enabled: true,
            host: shown,
            port,
            bypass: text::string_of(text::chars_of(bypass).as_slice()),
        },
    )
}

/// The settings to be written for no proxy.
pub fn clear_system_proxy() -> (r: Result<SystemProxyConfig, WriteError>)
    ensures
        match r {
            Err(e) => e is Unsupported,
            Ok(c) => is_disabled(c),
        },
{
    cleared_setting(system_proxy_supported())
}

/// The settings to be written for no proxy, where it is known whether the
/// system takes any.
pub fn cleared_setting(supported: bool) -> (r: Result<SystemProxyConfig, WriteError>)
    ensures
        !supported ==> r == Err::<SystemProxyConfig, WriteError>(WriteError::Unsupported),
        supported ==> (r matches Ok(c) && is_disabled(c)),
{
    if !supported {
        return Err(WriteError::Unsupported);
    }
    Ok(SystemProxyConfig::disabled())
}

/// The error is about rights.
pub open spec fn is_about_rights(error: Seq<char>) -> bool {
    ||| text::contains_text(error, "denied"@)
    ||| text::contains_text(error, "permission"@)
    ||| text::contains_text(error, "access"@)
}

/// The text for settings that could not be written.
pub open spec fn write_failed_text(host: Seq<char>, port: u16, error: Seq<char>) -> Seq<char> {
    "failed to set system proxy ("@ + host + ":"@ + text::decimal(port as nat) + ") \u{2014} "@
        + error + (if is_about_rights(error) {
        "\nTry running as Administrator."@
    } else {
        seq![]
    })
}

/// The text for settings that could not be written.
pub fn write_failed_message(config: &SystemProxyConfig, error: &str) -> (r: String)
    ensures
        r@ == write_failed_text(config.host@, config.port, error@),
{
    let e = text::chars_of(error);
    let mut out: Vec<char> = Vec::new();
    text::append_str(&mut out, "failed to set system proxy (");
    text::append_str(&mut out, config.host.as_str());
    text::append_str(&mut out, ":");
    text::append_chars(&mut out, text::decimal_text(config.port as u64).as_slice());
    text::append_str(&mut out, ") \u{2014} ");
    text::append_chars(&mut out, e.as_slice());
    if text::contains_str(e.as_slice(), "denied") || text::contains_str(
        e.as_slice(),
        "permission",
    ) || text::contains_str(e.as_slice(), "access") {
        text::append_str(&mut out, "\nTry running as Administrator.");
    }
    assert(out@ =~= write_failed_text(config.host@, config.port, error@));
    text::string_of(out.as_slice())
}

/// A server as Windows holds it: the host, a colon and the port.
pub open spec fn stored_server(host: Seq<char>, port: u16) -> Seq<char> {
    host + seq![':'] + text::decimal(port as nat)
}

/// What is written on Windows is read back: the host that clients connect to,
/// an IPv6 address too, and the port. Hosts with an equals sign, or with a
/// square bracket at an end, are no hosts.
pub proof fn law_written_server_is_read_back(host: Seq<char>, port: u16)
    requires
        reachable_host(host).len() > 0,
        !reachable_host(host).contains('='),
        !text::is_bracket(reachable_host(host)[0]),
        !text::is_bracket(reachable_host(host).last()),
    ensures
        server_of(stored_server(bracketed(reachable_host(host)), port)) == Some(
            (reachable_host(host), port),
        ),
{
    let h = reachable_host(host);
    let b = bracketed(h);
    let d = text::decimal(port as nat);
    let v = stored_server(b, port);
    let f = |c: char| text::is_space(c);
    let g = |c: char| text::is_bracket(c);
    text::lemma_decimal(port as nat);
    text::lemma_trimmed_ends(host);
    reveal_strlit("127.0.0.1");
    assert(!text::is_space(h[0]) && !text::is_space(h.last()));
    assert(!text::is_space(b[0]) && !text::is_space(b.last()));
    assert('0' <= d[0] <= '9' && '0' <= d.last() <= '9');
    assert(v[0] == b[0] && v.last() == d.last());
    text::lemma_drop_start(v, f, 0);
    assert(v.skip(0) =~= v);
    text::lemma_drop_end(v, f, v.len() as int);
    assert(v.take(v.len() as int) =~= v);
    assert(text::trimmed(v) == v);
    assert forall|k: int| 0 <= k < v.len() implies v[k] != '=' by {
        if k < b.len() {
            assert(v[k] == b[k]);
            assert(b[k] == '[' || b[k] == ']' || h.contains(b[k]));
        } else if k > b.len() {
            assert(v[k] == d[k - b.len() - 1]);
        }
    }
    assert(!text::contains_text(v, seq!['='])) by {
        assert forall|i: int| !text::occurs_at(v, seq!['='], i) by {
            if text::occurs_at(v, seq!['='], i) {
                assert(v.subrange(i, i + 1)[0] == v[i]);
            }
        }
    }
    assert forall|k: int| b.len() < k < v.len() implies v[k] != ':' by {
        assert(v[k] == d[k - b.len() - 1]);
    }
    text::lemma_last_index_unique(v, ':', b.len() as int);
    assert(v.take(b.len() as int) =~= b);
    assert(v.skip(b.len() as int + 1) =~= d);
    text::lemma_drop_start(b, f, 0);
    assert(b.skip(0) =~= b);
    text::lemma_drop_end(b, f, b.len() as int);
    assert(b.take(b.len() as int) =~= b);
    if net::v6_groups(h) is Some {
        let t = h + seq![']'];
        text::lemma_drop_start(b, g, 1);
        assert(b.skip(1) =~= t);
        text::lemma_drop_end(t, g, h.len() as int);
        assert(t.take(h.len() as int) =~= h);
    } else {
        text::lemma_drop_start(b, g, 0);
        text::lemma_drop_end(b, g, b.len() as int);
    }
    assert(text::unbracketed(b) == h);
    text::lemma_drop_start(d, f, 0);
    assert(d.skip(0) =~= d);
    text::lemma_drop_end(d, f, d.len() as int);
    assert(d.take(d.len() as int) =~= d);
}

/// The setting points to the local port. A server that listens everywhere is reached at the
/// local address; on Windows an IPv6 address stands in brackets.
pub proof fn law_setting_points_to_the_local_port(
    r: Result<SystemProxyConfig, WriteError>,
    platform: Platform,
    host: Seq<char>,
    port: u16,
    bypass: Seq<char>,
)
    requires
        is_setting(r, platform, true, host, port, bypass),
        text::trimmed(host).len() > 0,
    ensures
        r matches Ok(c) && c.enabled && c.port == port && c.bypass@ == bypass && (if text::trimmed(
            host,
        ) == "0.0.0.0"@ || text::trimmed(host) == "::"@ {
            c.host@ == "127.0.0.1"@
        } else if platform == Platform::Windows && net::v6_groups(text::trimmed(host)) is Some {
            c.host@ == "["@ + text::trimmed(host) + "]"@
        } else {
            c.host@ == text::trimmed(host)
        }),
{
    reveal_strlit("[");
    reveal_strlit("]");
    reveal_strlit("127.0.0.1");
    assert("["@ =~= seq!['[']);
    assert("]"@ =~= seq![']']);
    assert(!"127.0.0.1"@.contains(':'));
    net::lemma_no_colon("127.0.0.1"@);
}

/// Nothing is set where the system has no such setting, or without a host; nothing else stops it.
pub proof fn law_only_two_things_stop_the_setting(
    r: Result<SystemProxyConfig, WriteError>,
    platform: Platform,
    supported: bool,
    host: Seq<char>,
    port: u16,
    bypass: Seq<char>,
)
    requires
        is_setting(r, platform, supported, host, port, bypass),
    ensures
        !supported ==> r == Err::<SystemProxyConfig, WriteError>(WriteError::Unsupported),
        supported && text::trimmed(host).len() == 0 ==> r == Err::<SystemProxyConfig, WriteError>(
            WriteError::EmptyHost,
        ),
        supported && text::trimmed(host).len() > 0 ==> r is Ok,
{
}

/// A setting that can be read is handed on as it is; one that is missing means that there is no
/// proxy, and on Windows one that cannot be understood is read once more in its raw form.
pub proof fn law_setting_is_read(
    platform: Platform,
    read: Result<SystemProxyConfig, ReadFailure>,
    r: ReadOutcome,
)
    requires
        is_read_outcome(platform, read, r),
    ensures
        read matches Ok(c) ==> r == ReadOutcome::Config(c),
        read matches Err(e) ==> e is Missing ==> (r matches ReadOutcome::Config(c) && !c.enabled
            && c.port == 0 && c.host@.len() == 0),
        read matches Err(e) ==> e is Unparsable ==> r is ReadRaw == (platform == Platform::Windows),
        read matches Err(e) ==> e is Other ==> r is Error,
{
}

/// The local addresses do not go through the proxy; on Windows they are parted by semicolons,
/// and local names go past it too.
pub proof fn law_local_addresses_go_past(platform: Platform)
    ensures
        text::split_on(
            bypass_text(platform),
            if platform == Platform::Windows {
                ';'
            } else {
                ','
            },
        ).take(3) == seq!["localhost"@, "127.0.0.1"@, "::1"@],
{
    reveal_strlit("localhost,127.0.0.1,::1");
    reveal_strlit("localhost;127.0.0.1;::1;<local>");
    reveal_strlit("localhost");
    reveal_strlit("127.0.0.1");
    reveal_strlit("::1");
    let c = if platform == Platform::Windows {
        ';'
    } else {
        ','
    };
    let t = bypass_text(platform);
    let u = t.skip(10);
    let v = u.skip(10);
    text::lemma_first_index_unique(t, c, 9);
    text::lemma_first_index_unique(u, c, 9);
    text::lemma_first_index_unique(v, c, 3);
    assert(t.take(9) =~= "localhost"@);
    assert(u.take(9) =~= "127.0.0.1"@);
    assert(v.take(3) =~= "::1"@);
    let last = text::split_on(v, c);
    if platform == Platform::Windows {
        assert(v[3] == ';');
        assert(last == seq![v.take(3)] + text::split_on(v.skip(4), c));
    } else {
        assert(v.take(3) =~= v);
        assert(last == seq![v]);
    }
    assert(last[0] == "::1"@);
    assert(text::split_on(u, c) == seq![u.take(9)] + last);
    assert(text::split_on(t, c) == seq![t.take(9)] + text::split_on(u, c));
    assert(text::split_on(t, c).take(3) =~= seq!["localhost"@, "127.0.0.1"@, "::1"@]);
}

} // verus!
