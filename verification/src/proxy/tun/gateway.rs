//! Finding out where the traffic goes without the tunnel.

use vstd::prelude::*;

use crate::config;
use crate::net;
use crate::platform::Platform;
use crate::proxy::tun::commands;
use crate::proxy::tun::commands::{Command, CommandModel};
use crate::text;

verus! {

broadcast use {
    vstd::seq::group_seq_axioms,
    vstd::slice::group_slice_axioms,
    vstd::array::group_array_axioms,
    vstd::string::group_string_axioms,
    vstd::std_specs::vec::group_vec_axioms,
};

/// A gateway and its interface.
pub open spec fn v4_pair(r: Option<(u32, String)>) -> Option<(u32, Seq<char>)> {
    match r {
        Some(p) => Some((p.0, p.1@)),
        None => None,
    }
}

/// An IPv6 gateway and its interface.
pub open spec fn v6_pair(r: Option<(u128, String)>) -> Option<(u128, Seq<char>)> {
    match r {
        Some(p) => Some((p.0, p.1@)),
        None => None,
    }
}

/// The IPv4 address that a text writes.
pub open spec fn v4_of(s: Seq<char>) -> Option<u32> {
    match net::v4_value(s) {
        Some(v) => Some(v as u32),
        None => None,
    }
}

/// The IPv6 address that a text writes.
pub open spec fn v6_of(s: Seq<char>) -> Option<u128> {
    match net::v6_groups(s) {
        Some(g) => Some(net::v6_number(g) as u128),
        None => None,
    }
}

fn read_v4(s: &[char]) -> (r: Option<u32>)
    ensures
        r == v4_of(s@),
{
    net::parse_v4(s)
}

fn read_v6(s: &[char]) -> (r: Option<u128>)
    ensures
        r == v6_of(s@),
{
    net::parse_v6(s)
}

fn is_word(s: &[char], word: &str) -> (r: bool)
    ensures
        r == (s@ == word@),
{
    text::chars_eq(s, text::chars_of(word).as_slice())
}

// ---------------------------------------------------------------------------
// Linux
// ---------------------------------------------------------------------------

/// What the table of routes says.
pub enum ProcRoute {
    Found(u32, Seq<char>),
    /// The default route names a gateway that is no number.
    Invalid,
    Nothing,
}

/// The octets of a number in reverse.
pub open spec fn swapped(n: nat) -> u32 {
    (n % 0x100 * 0x100_0000 + n / 0x100 % 0x100 * 0x1_0000 + n / 0x1_0000 % 0x100 * 0x100 + n
        / 0x100_0000) as u32
}

/// The line is the default route by way of a gateway.
pub open spec fn is_default_line(f: Seq<Seq<char>>) -> bool {
    &&& f.len() >= 8
    &&& text::trimmed(f[1]) == "00000000"@
    &&& text::trimmed(f[7]) == "00000000"@
    &&& match text::parsed_uint(text::trimmed(f[3]), 16, 0xffff_ffff) {
        Some(flags) => flags / 2 % 2 == 1,
        None => false,
    }
}

/// What the lines of the table of routes say.
pub open spec fn proc_route(lines: Seq<Seq<char>>) -> ProcRoute
    decreases lines.len(),
{
    if lines.len() == 0 {
        ProcRoute::Nothing
    } else {
        let f = text::split_on(lines[0], '\t');
        if is_default_line(f) {
            match text::parsed_uint(text::trimmed(f[2]), 16, 0xffff_ffff) {
                Some(gw) => ProcRoute::Found(swapped(gw), text::trimmed(f[0])),
                None => ProcRoute::Invalid,
            }
        } else {
            proc_route(lines.drop_first())
        }
    }
}

/// What the table of routes says, as it is returned.
#[derive(Debug)]
pub enum ProcAnswer {
    Found(u32, String),
    Invalid,
    Nothing,
}

/// What the table of routes says, as it is returned.
pub open spec fn is_proc_answer(a: ProcAnswer, r: ProcRoute) -> bool {
    match r {
        ProcRoute::Found(gw, iface) => a matches ProcAnswer::Found(g, i) && g == gw && i@ == iface,
        ProcRoute::Invalid => a is Invalid,
        ProcRoute::Nothing => a is Nothing,
    }
}

/// The lines below the title.
pub open spec fn below_title(s: Seq<char>) -> Seq<Seq<char>> {
    let lines = text::lines_of(s);
    if lines.len() > 0 {
        lines.skip(1)
    } else {
        lines
    }
}

fn default_line(fields: &Vec<Vec<char>>) -> (r: bool)
    ensures
        r == is_default_line(text::texts(fields@)),
{
    let ghost f = text::texts(fields@);
    assert(f.len() == fields@.len());
    if fields.len() < 8 {
        return false;
    }
    assert(f[1] == fields@[1]@ && f[7] == fields@[7]@ && f[3] == fields@[3]@);
    if !is_word(text::trim(fields[1].as_slice()), "00000000") {
        return false;
    }
    if !is_word(text::trim(fields[7].as_slice()), "00000000") {
        return false;
    }
    match text::parse_uint(text::trim(fields[3].as_slice()), 16, 0xffff_ffff) {
        Some(flags) => flags / 2 % 2 == 1,
        None => false,
    }
}

/// What the table of routes says.
pub fn parse_proc_route(content: &str) -> (r: ProcAnswer)
    ensures
        is_proc_answer(r, proc_route(below_title(content@))),
{
    let lines = text::split_lines(text::chars_of(content).as_slice());
    let ghost all = text::texts(lines@);
    assert(all.len() == lines@.len());
    let mut i: usize = 1;
    if lines.len() == 0 {
        return ProcAnswer::Nothing;
    }
    assert(all.skip(1).skip(0) =~= all.skip(1));
    while i < lines.len()
        invariant
            1 <= i <= lines@.len(),
            all == text::texts(lines@),
            all.len() == lines@.len(),
            proc_route(all.skip(1)) == proc_route(all.skip(i as int)),
            below_title(content@) == all.skip(1),
        decreases lines@.len() - i,
    {
        let fields = text::split(lines[i].as_slice(), '\t');
        let ghost f = text::texts(fields@);
        assert(all.skip(i as int)[0] == lines@[i as int]@);
        assert(all.skip(i as int).drop_first() =~= all.skip(i + 1));
        assert(f.len() == fields@.len());
        if default_line(&fields) {
            assert(f[0] == fields@[0]@ && f[2] == fields@[2]@);
            return match text::parse_uint(text::trim(fields[2].as_slice()), 16, 0xffff_ffff) {
                Some(gw) => {
                    let n: u32 = gw as u32;
                    let gateway: u32 = n % 0x100 * 0x100_0000 + n / 0x100 % 0x100 * 0x1_0000 + n
                        / 0x1_0000 % 0x100 * 0x100 + n / 0x100_0000;
                    ProcAnswer::Found(gateway, text::string_of(text::trim(fields[0].as_slice())))
                },
                None => ProcAnswer::Invalid,
            };
        }
        i = i + 1;
    }
    ProcAnswer::Nothing
}

/// What `ip route show default` says.
pub enum IpRoute {
    Found(u32, Seq<char>),
    /// The gateway is no address.
    Invalid,
    Nothing,
}

/// What `ip route show default` says.
pub open spec fn ip_route(s: Seq<char>) -> IpRoute {
    let w = text::words(s);
    if w.len() >= 5 && w[0] == "default"@ && w[1] == "via"@ {
        match v4_of(w[2]) {
            Some(gw) => IpRoute::Found(
                gw,
                if w[3] == "dev"@ {
                    w[4]
                } else {
                    "eth0"@
                },
            ),
            None => IpRoute::Invalid,
        }
    } else {
        IpRoute::Nothing
    }
}

/// What `ip route show default` says, as it is returned.
pub open spec fn is_ip_answer(a: ProcAnswer, r: IpRoute) -> bool {
    match r {
        IpRoute::Found(gw, iface) => a matches ProcAnswer::Found(g, i) && g == gw && i@ == iface,
        IpRoute::Invalid => a is Invalid,
        IpRoute::Nothing => a is Nothing,
    }
}

/// What `ip route show default` says.
pub fn parse_ip_route(output: &str) -> (r: ProcAnswer)
    ensures
        is_ip_answer(r, ip_route(output@)),
{
    let words = text::split_words(text::chars_of(output).as_slice());
    let ghost w = text::texts(words@);
    assert(w.len() == words@.len());
    if words.len() < 5 {
        return ProcAnswer::Nothing;
    }
    assert(w[0] == words@[0]@ && w[1] == words@[1]@ && w[2] == words@[2]@ && w[3] == words@[3]@
        && w[4] == words@[4]@);
    if !is_word(words[0].as_slice(), "default") || !is_word(words[1].as_slice(), "via") {
        return ProcAnswer::Nothing;
    }
    match read_v4(words[2].as_slice()) {
        Some(gw) => ProcAnswer::Found(
            gw,
            if is_word(words[3].as_slice(), "dev") {
                text::string_of(words[4].as_slice())
            } else {
                text::string_of(text::chars_of("eth0").as_slice())
            },
        ),
        None => ProcAnswer::Invalid,
    }
}

/// The gateway that one line of `ip -6 route show default` names.
pub open spec fn linux_v6_line(line: Seq<char>) -> Option<(u128, Seq<char>)> {
    let w = text::words(line);
    if w.len() >= 5 && w[0] == "default"@ && w[1] == "via"@ && w[3] == "dev"@ && (match v6_of(w[2]) {
        Some(gw) => gw != 0,
        None => false,
    }) {
        Some((v6_of(w[2])->0, w[4]))
    } else {
        None
    }
}

/// The gateway of the first line that names one.
pub open spec fn linux_v6_lines(lines: Seq<Seq<char>>) -> Option<(u128, Seq<char>)>
    decreases lines.len(),
{
    if lines.len() == 0 {
        None
    } else {
        match linux_v6_line(lines[0]) {
            Some(g) => Some(g),
            None => linux_v6_lines(lines.drop_first()),
        }
    }
}

fn parse_linux_v6_line(line: &[char]) -> (r: Option<(u128, String)>)
    ensures
        v6_pair(r) == linux_v6_line(line@),
{
    let words = text::split_words(line);
    let ghost w = text::texts(words@);
    assert(w.len() == words@.len());
    if words.len() < 5 {
        return None;
    }
    assert(w[0] == words@[0]@ && w[1] == words@[1]@ && w[2] == words@[2]@ && w[3] == words@[3]@
        && w[4] == words@[4]@);
    if !is_word(words[0].as_slice(), "default") || !is_word(words[1].as_slice(), "via") || !is_word(
        words[3].as_slice(),
        "dev",
    ) {
        return None;
    }
    match read_v6(words[2].as_slice()) {
        Some(gw) => if gw != 0 {
            Some((gw, text::string_of(words[4].as_slice())))
        } else {
            None
        },
        None => None,
    }
}

/// What `ip -6 route show default` says.
pub fn parse_linux_v6_default_route(output: &str) -> (r: Option<(u128, String)>)
    ensures
        v6_pair(r) == linux_v6_lines(text::lines_of(output@)),
{
    let lines = text::split_lines(text::chars_of(output).as_slice());
    let ghost all = text::texts(lines@);
    assert(all.len() == lines@.len());
    let mut i: usize = 0;
    assert(all.skip(0) =~= all);
    while i < lines.len()
        invariant
            i <= lines@.len(),
            all == text::texts(lines@),
            all == text::lines_of(output@),
            all.len() == lines@.len(),
            linux_v6_lines(all) == linux_v6_lines(all.skip(i as int)),
        decreases lines@.len() - i,
    {
        assert(all.skip(i as int)[0] == lines@[i as int]@);
        assert(all.skip(i as int).drop_first() =~= all.skip(i + 1));
        let found = parse_linux_v6_line(lines[i].as_slice());
        if found.is_some() {
            return found;
        }
        i = i + 1;
    }
    None
}

// ---------------------------------------------------------------------------
// macOS
// ---------------------------------------------------------------------------

/// What stands behind a label, without spaces around it.
pub open spec fn labelled(line: Seq<char>, label: Seq<char>) -> Option<Seq<char>> {
    let t = text::trimmed(line);
    if text::has_prefix(t, label) {
        Some(text::trimmed(t.skip(label.len() as int)))
    } else {
        None
    }
}

/// What the last line with a label says.
pub open spec fn last_labelled(lines: Seq<Seq<char>>, label: Seq<char>) -> Option<Seq<char>>
    decreases lines.len(),
{
    if lines.len() == 0 {
        None
    } else {
        match labelled(lines.last(), label) {
            Some(v) => Some(v),
            None => last_labelled(lines.drop_last(), label),
        }
    }
}

/// An optional text.
pub open spec fn opt_seq(v: Option<Vec<char>>) -> Option<Seq<char>> {
    match v {
        Some(c) => Some(c@),
        None => None,
    }
}

fn find_labelled(lines: &Vec<Vec<char>>, label: &str) -> (r: Option<Vec<char>>)
    ensures
        opt_seq(r) == last_labelled(text::texts(lines@), label@),
{
    let prefix = text::chars_of(label);
    let ghost all = text::texts(lines@);
    let mut i: usize = lines.len();
    assert(all.take(i as int) =~= all);
    while i > 0
        invariant
            i <= lines@.len(),
            all == text::texts(lines@),
            prefix@ == label@,
            last_labelled(all, label@) == last_labelled(all.take(i as int), label@),
        decreases i,
    {
        let line = text::trim(lines[i - 1].as_slice());
        assert(all.take(i as int).last() == lines@[i - 1]@);
        assert(all.take(i as int).drop_last() =~= all.take(i - 1));
        if text::starts_with(line, prefix.as_slice()) {
            let rest = vstd::slice::slice_subrange(line, prefix.len(), line.len());
            assert(rest@ =~= line@.skip(label@.len() as int));
            let mut out: Vec<char> = Vec::new();
            text::append_chars(&mut out, text::trim(rest));
            assert(out@ =~= text::trimmed(rest@));
            return Some(out);
        }
        i = i - 1;
    }
    None
}

/// What `route -n get default` says: the gateway, if it is an address, and
/// the interface.
pub open spec fn macos_route_get(lines: Seq<Seq<char>>) -> (Option<u32>, Option<Seq<char>>) {
    (
        match last_labelled(lines, "gateway:"@) {
            Some(t) => v4_of(t),
            None => None,
        },
        last_labelled(lines, "interface:"@),
    )
}

/// The gateway that `route -n get default` names; without an interface it is
/// taken to be the usual one.
pub open spec fn macos_gateway(s: Seq<char>) -> Option<(u32, Seq<char>)> {
    let (gw, iface) = macos_route_get(text::lines_of(s));
    match gw {
        Some(g) => Some(
            (
                g,
                match iface {
                    Some(i) => i,
                    None => "en0"@,
                },
            ),
        ),
        None => None,
    }
}

/// The gateway that `route -n get default` names.
pub fn parse_macos_route_get(output: &str) -> (r: Option<(u32, String)>)
    ensures
        v4_pair(r) == macos_gateway(output@),
{
    let lines = text::split_lines(text::chars_of(output).as_slice());
    let gw: u32 = match find_labelled(&lines, "gateway:") {
        Some(t) => match read_v4(t.as_slice()) {
            Some(g) => g,
            None => {
                return None;
            },
        },
        None => {
            return None;
        },
    };
    match find_labelled(&lines, "interface:") {
        Some(i) => Some((gw, text::string_of(i.as_slice()))),
        None => Some((gw, text::string_of(text::chars_of("en0").as_slice()))),
    }
}

/// The gateway that one line of `netstat -rn` names.
pub open spec fn netstat_line(line: Seq<char>) -> Option<(u32, Seq<char>)> {
    let w = text::words(line);
    if w.len() >= 4 && w[0] == "default"@ && v4_of(w[1]) is Some {
        Some((v4_of(w[1])->0, w.last()))
    } else {
        None
    }
}

/// The gateway of the first line that names one.
pub open spec fn netstat_lines(lines: Seq<Seq<char>>) -> Option<(u32, Seq<char>)>
    decreases lines.len(),
{
    if lines.len() == 0 {
        None
    } else {
        match netstat_line(lines[0]) {
            Some(g) => Some(g),
            None => netstat_lines(lines.drop_first()),
        }
    }
}

fn parse_netstat_line(line: &[char]) -> (r: Option<(u32, String)>)
    ensures
        v4_pair(r) == netstat_line(line@),
{
    let words = text::split_words(line);
    let ghost w = text::texts(words@);
    assert(w.len() == words@.len());
    if words.len() < 4 {
        return None;
    }
    assert(w[0] == words@[0]@ && w[1] == words@[1]@ && w.last() == words@.last()@);
    if !is_word(words[0].as_slice(), "default") {
        return None;
    }
    match read_v4(words[1].as_slice()) {
        Some(gw) => Some((gw, text::string_of(words[words.len() - 1].as_slice()))),
        None => None,
    }
}

/// The gateway that `netstat -rn` names.
pub fn parse_netstat(output: &str) -> (r: Option<(u32, String)>)
    ensures
        v4_pair(r) == netstat_lines(text::lines_of(output@)),
{
    let lines = text::split_lines(text::chars_of(output).as_slice());
    let ghost all = text::texts(lines@);
    assert(all.len() == lines@.len());
    let mut i: usize = 0;
    assert(all.skip(0) =~= all);
    while i < lines.len()
        invariant
            i <= lines@.len(),
            all == text::texts(lines@),
            all == text::lines_of(output@),
            all.len() == lines@.len(),
            netstat_lines(all) == netstat_lines(all.skip(i as int)),
        decreases lines@.len() - i,
    {
        assert(all.skip(i as int)[0] == lines@[i as int]@);
        assert(all.skip(i as int).drop_first() =~= all.skip(i + 1));
        let found = parse_netstat_line(lines[i].as_slice());
        if found.is_some() {
            return found;
        }
        i = i + 1;
    }
    None
}

/// An address without the interface behind it.
pub open spec fn unscoped(s: Seq<char>) -> Seq<char> {
    s.take(text::first_index(s, '%'))
}

/// The gateway that `route -n get -inet6 default` names, with its interface.
pub open spec fn macos_v6_gateway(s: Seq<char>) -> Option<(u128, Seq<char>)> {
    let lines = text::lines_of(s);
    let gw = match last_labelled(lines, "gateway:"@) {
        Some(t) => v6_of(unscoped(t)),
        None => None,
    };
    match last_labelled(lines, "interface:"@) {
        Some(i) => if gw is Some && gw->0 != 0 && i.len() > 0 {
            Some((gw->0, i))
        } else {
            None
        },
        None => None,
    }
}

/// What `route -n get -inet6 default` says.
pub fn parse_macos_v6_route_get(output: &str) -> (r: Option<(u128, String)>)
    ensures
        v6_pair(r) == macos_v6_gateway(output@),
{
    let lines = text::split_lines(text::chars_of(output).as_slice());
    let gw: u128 = match find_labelled(&lines, "gateway:") {
        Some(t) => {
            let n: usize = text::find_char(t.as_slice(), '%');
            let bare = vstd::slice::slice_subrange(t.as_slice(), 0, n);
            assert(bare@ =~= unscoped(t@));
            match read_v6(bare) {
                Some(g) => g,
                None => {
                    return None;
                },
            }
        },
        None => {
            return None;
        },
    };
    match find_labelled(&lines, "interface:") {
        Some(i) => if gw != 0 && i.len() > 0 {
            Some((gw, text::string_of(i.as_slice())))
        } else {
            None
        },
        None => None,
    }
}

// ---------------------------------------------------------------------------
// Windows
// ---------------------------------------------------------------------------

/// The gateway that one line of `route print 0.0.0.0` names. The interface is
/// named by its own address.
pub open spec fn route_print_line(line: Seq<char>) -> Option<(u32, Seq<char>)> {
    let w = text::words(line);
    if w.len() >= 4 && w[0] == "0.0.0.0"@ && w[1] == "0.0.0.0"@ && v4_of(w[2]) is Some {
        Some((v4_of(w[2])->0, w[3]))
    } else {
        None
    }
}

/// The gateway of the first line that names one.
pub open spec fn route_print_lines(lines: Seq<Seq<char>>) -> Option<(u32, Seq<char>)>
    decreases lines.len(),
{
    if lines.len() == 0 {
        None
    } else {
        match route_print_line(lines[0]) {
            Some(g) => Some(g),
            None => route_print_lines(lines.drop_first()),
        }
    }
}

fn parse_route_print_line(line: &[char]) -> (r: Option<(u32, String)>)
    ensures
        v4_pair(r) == route_print_line(line@),
{
    let words = text::split_words(line);
    let ghost w = text::texts(words@);
    assert(w.len() == words@.len());
    if words.len() < 4 {
        return None;
    }
    assert(w[0] == words@[0]@ && w[1] == words@[1]@ && w[2] == words@[2]@ && w[3] == words@[3]@);
    if !is_word(words[0].as_slice(), "0.0.0.0") || !is_word(words[1].as_slice(), "0.0.0.0") {
        return None;
    }
    match read_v4(words[2].as_slice()) {
        Some(gw) => Some((gw, text::string_of(words[3].as_slice()))),
        None => None,
    }
}

/// The gateway that `route print 0.0.0.0` names.
pub fn parse_route_print(output: &str) -> (r: Option<(u32, String)>)
    ensures
        v4_pair(r) == route_print_lines(text::lines_of(output@)),
{
    let lines = text::split_lines(text::chars_of(output).as_slice());
    let ghost all = text::texts(lines@);
    assert(all.len() == lines@.len());
    let mut i: usize = 0;
    assert(all.skip(0) =~= all);
    while i < lines.len()
        invariant
            i <= lines@.len(),
            all == text::texts(lines@),
            all == text::lines_of(output@),
            all.len() == lines@.len(),
            route_print_lines(all) == route_print_lines(all.skip(i as int)),
        decreases lines@.len() - i,
    {
        assert(all.skip(i as int)[0] == lines@[i as int]@);
        assert(all.skip(i as int).drop_first() =~= all.skip(i + 1));
        let found = parse_route_print_line(lines[i].as_slice());
        if found.is_some() {
            return found;
        }
        i = i + 1;
    }
    None
}

/// The first line with anything in it, without spaces around it.
pub open spec fn first_filled(lines: Seq<Seq<char>>) -> Option<Seq<char>>
    decreases lines.len(),
{
    if lines.len() == 0 {
        None
    } else if text::trimmed(lines[0]).len() > 0 {
        Some(text::trimmed(lines[0]))
    } else {
        first_filled(lines.drop_first())
    }
}

/// The gateway and the interface that stand on either side of a bar.
pub open spec fn barred(line: Seq<char>) -> Option<(u128, Seq<char>)> {
    let i = text::first_index(line, '|');
    if i < line.len() {
        let gw = v6_of(text::trimmed(line.take(i)));
        let iface = text::trimmed(line.skip(i + 1));
        if gw is Some && gw->0 != 0 && iface.len() > 0 {
            Some((gw->0, iface))
        } else {
            None
        }
    } else {
        None
    }
}

/// The gateway that PowerShell names.
pub open spec fn windows_v6_gateway(s: Seq<char>) -> Option<(u128, Seq<char>)> {
    match first_filled(text::lines_of(s)) {
        Some(line) => barred(line),
        None => None,
    }
}

fn parse_barred(line: &[char]) -> (r: Option<(u128, String)>)
    ensures
        v6_pair(r) == barred(line@),
{
    let i: usize = text::find_char(line, '|');
    if i >= line.len() {
        return None;
    }
    let left = vstd::slice::slice_subrange(line, 0, i);
    let right = vstd::slice::slice_subrange(line, i + 1, line.len());
    assert(left@ =~= line@.take(i as int));
    assert(right@ =~= line@.skip(i + 1));
    let iface = text::trim(right);
    match read_v6(text::trim(left)) {
        Some(gw) => if gw != 0 && iface.len() > 0 {
            Some((gw, text::string_of(iface)))
        } else {
            None
        },
        None => None,
    }
}

/// What PowerShell says of the default route for IPv6.
pub fn parse_windows_ps_v6_gateway(output: &str) -> (r: Option<(u128, String)>)
    ensures
        v6_pair(r) == windows_v6_gateway(output@),
{
    let lines = text::split_lines(text::chars_of(output).as_slice());
    let ghost all = text::texts(lines@);
    assert(all.len() == lines@.len());
    let mut i: usize = 0;
    assert(all.skip(0) =~= all);
    while i < lines.len()
        invariant
            i <= lines@.len(),
            all == text::texts(lines@),
            all == text::lines_of(output@),
            all.len() == lines@.len(),
            first_filled(all) == first_filled(all.skip(i as int)),
        decreases lines@.len() - i,
    {
        assert(all.skip(i as int)[0] == lines@[i as int]@);
        assert(all.skip(i as int).drop_first() =~= all.skip(i + 1));
        let line = text::trim(lines[i].as_slice());
        if line.len() > 0 {
            return parse_barred(line);
        }
        i = i + 1;
    }
    None
}

// ---------------------------------------------------------------------------
// The search
// ---------------------------------------------------------------------------

/// What is asked of the system.
#[derive(Debug)]
pub enum Query {
    ReadFile(String),
    Run(Command),
}

/// What is asked of the system, as its contracts speak of it.
pub enum QueryModel {
    ReadFile(Seq<char>),
    Run(CommandModel),
}

impl View for Query {
    type V = QueryModel;

    open spec fn view(&self) -> QueryModel {
        match *self {
            Query::ReadFile(p) => QueryModel::ReadFile(p@),
            Query::Run(c) => QueryModel::Run(c@),
        }
    }
}

fn run(program: &str, args: Vec<String>) -> (r: Query)
    ensures
        r@ == QueryModel::Run(commands::command_of(program@, config::text_list(args@))),
{
    Query::Run(
        Command { program: text::string_of(text::chars_of(program).as_slice()), args },
    )
}

/// The search for the gateway for IPv4.
#[derive(Debug)]
pub enum GatewayStep {
    Found(u32, String),
    Ask(Query),
    Failed(String),
}

/// The search as its contracts speak of it.
pub enum GatewayModel {
    Found(u32, Seq<char>),
    Ask(QueryModel),
    Failed(Seq<char>),
}

impl View for GatewayStep {
    type V = GatewayModel;

    open spec fn view(&self) -> GatewayModel {
        match *self {
            GatewayStep::Found(gw, iface) => GatewayModel::Found(gw, iface@),
            GatewayStep::Ask(q) => GatewayModel::Ask(q@),
            GatewayStep::Failed(e) => GatewayModel::Failed(e@),
        }
    }
}

/// An answer of the system, or its error.
pub open spec fn answer_of(a: Result<&str, &str>) -> Result<Seq<char>, Seq<char>> {
    match a {
        Ok(t) => Ok(t@),
        Err(e) => Err(e@),
    }
}

/// The first question.
pub open spec fn first_question(platform: Platform) -> GatewayModel {
    match platform {
        Platform::Linux => GatewayModel::Ask(QueryModel::ReadFile("/proc/net/route"@)),
        Platform::Macos => GatewayModel::Ask(
            QueryModel::Run(commands::command_of("route"@, seq!["-n"@, "get"@, "default"@])),
        ),
        Platform::Windows => GatewayModel::Ask(
            QueryModel::Run(commands::command_of("route"@, seq!["print"@, "0.0.0.0"@])),
        ),
        Platform::Other => GatewayModel::Failed("TUN mode is not supported on this platform"@),
    }
}

/// The second question, where the first answer was none.
pub open spec fn second_question(platform: Platform) -> QueryModel {
    match platform {
        Platform::Linux => QueryModel::Run(
            commands::command_of("ip"@, seq!["route"@, "show"@, "default"@]),
        ),
        Platform::Windows => QueryModel::Run(
            commands::command_of(
                "powershell"@,
                seq![
                    "-Command"@,
                    "(Get-NetRoute -DestinationPrefix '0.0.0.0/0' | Select-Object -First 1).NextHop"@,
                ],
            ),
        ),
        _ => QueryModel::Run(commands::command_of("netstat"@, seq!["-rn"@])),
    }
}

/// What follows from the first answer.
pub open spec fn after_first(platform: Platform, answer: Result<Seq<char>, Seq<char>>) -> GatewayModel {
    let ask = GatewayModel::Ask(second_question(platform));
    match platform {
        Platform::Linux => match answer {
            Ok(t) => match proc_route(below_title(t)) {
                ProcRoute::Found(gw, iface) => GatewayModel::Found(gw, iface),
                ProcRoute::Invalid => GatewayModel::Failed(
                    "Invalid gateway hex in /proc/net/route"@,
                ),
                ProcRoute::Nothing => ask,
            },
            Err(_) => ask,
        },
        Platform::Macos => match answer {
            Ok(t) => match macos_gateway(t) {
                Some((gw, iface)) => GatewayModel::Found(gw, iface),
                None => ask,
            },
            Err(e) => GatewayModel::Failed(e),
        },
        Platform::Windows => match answer {
            Ok(t) => match route_print_lines(text::lines_of(t)) {
                Some((gw, iface)) => GatewayModel::Found(gw, iface),
                None => ask,
            },
            Err(e) => GatewayModel::Failed(e),
        },
        Platform::Other => GatewayModel::Failed("TUN mode is not supported on this platform"@),
    }
}

/// What follows from the second answer.
pub open spec fn after_second(platform: Platform, answer: Result<Seq<char>, Seq<char>>) -> GatewayModel {
    match platform {
        Platform::Linux => match answer {
            Ok(t) => match ip_route(t) {
                IpRoute::Found(gw, iface) => GatewayModel::Found(gw, iface),
                IpRoute::Invalid => GatewayModel::Failed("Failed to parse gateway IP"@),
                IpRoute::Nothing => GatewayModel::Failed("No default gateway found on Linux"@),
            },
            Err(e) => GatewayModel::Failed(e),
        },
        Platform::Macos => match answer {
            Ok(t) => match netstat_lines(text::lines_of(t)) {
                Some((gw, iface)) => GatewayModel::Found(gw, iface),
                None => GatewayModel::Failed("No default gateway found on macOS"@),
            },
            Err(e) => GatewayModel::Failed(e),
        },
        Platform::Windows => match answer {
            Ok(t) => match v4_of(text::trimmed(t)) {
                Some(gw) => GatewayModel::Found(gw, "0.0.0.0"@),
                None => GatewayModel::Failed("No default gateway found on Windows"@),
            },
            Err(_) => GatewayModel::Failed("No default gateway found on Windows"@),
        },
        Platform::Other => GatewayModel::Failed("TUN mode is not supported on this platform"@),
    }
}

fn fail(message: &str) -> (r: GatewayStep)
    ensures
        r@ == GatewayModel::Failed(message@),
{
    GatewayStep::Failed(text::string_of(text::chars_of(message).as_slice()))
}

/// The search for the default gateway begins.
pub fn get_default_gateway(platform: Platform) -> (r: GatewayStep)
    ensures
        r@ == first_question(platform),
{
    match platform {
        Platform::Linux => GatewayStep::Ask(
            Query::ReadFile(text::string_of(text::chars_of("/proc/net/route").as_slice())),
        ),
        Platform::Macos => {
            let args = commands::args_of(["-n", "get", "default"].as_slice());
            assert(config::text_list(args@) =~= seq!["-n"@, "get"@, "default"@]);
            GatewayStep::Ask(run("route", args))
        },
        Platform::Windows => {
            let args = commands::args_of(["print", "0.0.0.0"].as_slice());
            assert(config::text_list(args@) =~= seq!["print"@, "0.0.0.0"@]);
            GatewayStep::Ask(run("route", args))
        },
        Platform::Other => fail("TUN mode is not supported on this platform"),
    }
}

fn ask_again(platform: Platform) -> (r: GatewayStep)
    ensures
        r@ == GatewayModel::Ask(second_question(platform)),
{
    match platform {
        Platform::Linux => {
            let args = commands::args_of(["route", "show", "default"].as_slice());
            assert(config::text_list(args@) =~= seq!["route"@, "show"@, "default"@]);
            GatewayStep::Ask(run("ip", args))
        },
        Platform::Windows => {
            let args = commands::args_of(
                [
                    "-Command",
                    "(Get-NetRoute -DestinationPrefix '0.0.0.0/0' | Select-Object -First 1).NextHop",
                ].as_slice(),
            );
            assert(config::text_list(args@) =~= seq![
                "-Command"@,
                "(Get-NetRoute -DestinationPrefix '0.0.0.0/0' | Select-Object -First 1).NextHop"@,
            ]);
            GatewayStep::Ask(run("powershell", args))
        },
        _ => {
            let args = commands::args_of(["-rn"].as_slice());
            assert(config::text_list(args@) =~= seq!["-rn"@]);
            GatewayStep::Ask(run("netstat", args))
        },
    }
}

/// The first answer came.
pub fn on_first_answer(platform: Platform, answer: Result<&str, &str>) -> (r: GatewayStep)
    ensures
        r@ == after_first(platform, answer_of(answer)),
{
    match platform {
        Platform::Linux => match answer {
            Ok(t) => match parse_proc_route(t) {
                ProcAnswer::Found(gw, iface) => GatewayStep::Found(gw, iface),
                ProcAnswer::Invalid => fail("Invalid gateway hex in /proc/net/route"),
                ProcAnswer::Nothing => ask_again(platform),
            },
            Err(_) => ask_again(platform),
        },
        Platform::Macos => match answer {
            Ok(t) => match parse_macos_route_get(t) {
                Some((gw, iface)) => GatewayStep::Found(gw, iface),
                None => ask_again(platform),
            },
            Err(e) => fail(e),
        },
        Platform::Windows => match answer {
            Ok(t) => match parse_route_print(t) {
                Some((gw, iface)) => GatewayStep::Found(gw, iface),
                None => ask_again(platform),
            },
            Err(e) => fail(e),
        },
        Platform::Other => fail("TUN mode is not supported on this platform"),
    }
}

/// The second answer came.
pub fn on_second_answer(platform: Platform, answer: Result<&str, &str>) -> (r: GatewayStep)
    ensures
        r@ == after_second(platform, answer_of(answer)),
{
    match platform {
        Platform::Linux => match answer {
            Ok(t) => match parse_ip_route(t) {
                ProcAnswer::Found(gw, iface) => GatewayStep::Found(gw, iface),
                ProcAnswer::Invalid => fail("Failed to parse gateway IP"),
                ProcAnswer::Nothing => fail("No default gateway found on Linux"),
            },
            Err(e) => fail(e),
        },
        Platform::Macos => match answer {
            Ok(t) => match parse_netstat(t) {
                Some((gw, iface)) => GatewayStep::Found(gw, iface),
                None => fail("No default gateway found on macOS"),
            },
            Err(e) => fail(e),
        },
        Platform::Windows => match answer {
            Ok(t) => match read_v4(text::trim(text::chars_of(t).as_slice())) {
                Some(gw) => GatewayStep::Found(
                    gw,
                    text::string_of(text::chars_of("0.0.0.0").as_slice()),
                ),
                None => fail("No default gateway found on Windows"),
            },
            Err(_) => fail("No default gateway found on Windows"),
        },
        Platform::Other => fail("TUN mode is not supported on this platform"),
    }
}

/// The question for the gateway for IPv6.
pub open spec fn v6_question(platform: Platform) -> Option<CommandModel> {
    match platform {
        Platform::Linux => Some(
            commands::command_of("ip"@, seq!["-6"@, "route"@, "show"@, "default"@]),
        ),
        Platform::Macos => Some(
            commands::command_of("route"@, seq!["-n"@, "get"@, "-inet6"@, "default"@]),
        ),
        Platform::Windows => Some(
            commands::command_of(
                "powershell"@,
                seq![
                    "-NoProfile"@,
                    "-Command"@,
                    "(Get-NetRoute -DestinationPrefix '::/0' | Sort-Object RouteMetric | Select-Object -First 1 | ForEach-Object { \"$($_.NextHop)|$($_.InterfaceAlias)\" })"@,
                ],
            ),
        ),
        Platform::Other => None,
    }
}

/// The question for the gateway for IPv6: none where there is no answer.
pub fn get_default_gateway_v6(platform: Platform) -> (r: Option<Command>)
    ensures
        match r {
            Some(c) => v6_question(platform) == Some(c@),
            None => v6_question(platform) is None,
        },
{
    let (program, args) = match platform {
        Platform::Linux => {
            let args = commands::args_of(["-6", "route", "show", "default"].as_slice());
            assert(config::text_list(args@) =~= seq!["-6"@, "route"@, "show"@, "default"@]);
            ("ip", args)
        },
        Platform::Macos => {
            let args = commands::args_of(["-n", "get", "-inet6", "default"].as_slice());
            assert(config::text_list(args@) =~= seq!["-n"@, "get"@, "-inet6"@, "default"@]);
            ("route", args)
        },
        Platform::Windows => {
            let args = commands::args_of(
                [
                    "-NoProfile",
                    "-Command",
                    "(Get-NetRoute -DestinationPrefix '::/0' | Sort-Object RouteMetric | Select-Object -First 1 | ForEach-Object { \"$($_.NextHop)|$($_.InterfaceAlias)\" })",
                ].as_slice(),
            );
            assert(config::text_list(args@) =~= seq![
                "-NoProfile"@,
                "-Command"@,
                "(Get-NetRoute -DestinationPrefix '::/0' | Sort-Object RouteMetric | Select-Object -First 1 | ForEach-Object { \"$($_.NextHop)|$($_.InterfaceAlias)\" })"@,
            ]);
            ("powershell", args)
        },
        Platform::Other => {
            return None;
        },
    };
    Some(Command { program: text::string_of(text::chars_of(program).as_slice()), args })
}

/// The gateway for IPv6 that an answer names.
pub open spec fn v6_answer(platform: Platform, output: Seq<char>) -> Option<(u128, Seq<char>)> {
    match platform {
        Platform::Linux => linux_v6_lines(text::lines_of(output)),
        Platform::Macos => macos_v6_gateway(output),
        Platform::Windows => windows_v6_gateway(output),
        Platform::Other => None,
    }
}

/// The gateway for IPv6 that an answer names.
pub fn on_v6_answer(platform: Platform, output: &str) -> (r: Option<(u128, String)>)
    ensures
        v6_pair(r) == v6_answer(platform, output@),
{
    match platform {
        Platform::Linux => parse_linux_v6_default_route(output),
        Platform::Macos => parse_macos_v6_route_get(output),
        Platform::Windows => parse_windows_ps_v6_gateway(output),
        Platform::Other => None,
    }
}

/// No gateway for IPv6 is the unspecified address.
pub proof fn law_gateway_is_an_address(platform: Platform, output: Seq<char>)
    ensures
        match v6_answer(platform, output) {
            Some((gw, _)) => gw != 0,
            None => true,
        },
{
    lemma_linux_gateway(text::lines_of(output));
}

proof fn lemma_linux_gateway(lines: Seq<Seq<char>>)
    ensures
        match linux_v6_lines(lines) {
            Some((gw, _)) => gw != 0,
            None => true,
        },
    decreases lines.len(),
{
    if lines.len() > 0 {
        lemma_linux_gateway(lines.drop_first());
    }
}

proof fn lemma_v4_read_back(ip: u32)
    ensures
        v4_of(net::v4_text(ip)) == Some(ip),
{
    net::law_v4_text_is_read_back(ip);
}

proof fn lemma_v6_read_back(ip: u128)
    ensures
        v6_of(net::v6_text(ip)) == Some(ip),
{
    net::law_v6_text_is_read_back(ip);
}

/// A row of the kernel's routing table leads everything to a gateway: destination and mask are
/// zero, and the flags say that there is a gateway.
pub open spec fn leads_out(row: Seq<char>, flags: nat) -> bool {
    let f = text::split_on(row, '\t');
    &&& f.len() > 7
    &&& text::trimmed(f[1]) == "00000000"@
    &&& text::parsed_uint(text::trimmed(f[3]), 16, 0xffff_ffff) == Some(flags)
    &&& flags % 4 >= 2
    &&& text::trimmed(f[7]) == "00000000"@
}

proof fn lemma_proc_route(rows: Seq<Seq<char>>, k: int, flags: nat)
    requires
        0 <= k < rows.len(),
        leads_out(rows[k], flags),
        forall|j: int, other: nat| 0 <= j < k ==> !#[trigger] leads_out(rows[j], other),
    ensures
        proc_route(rows) == proc_route(rows.skip(k)),
        is_default_line(text::split_on(rows[k], '\t')),
    decreases k,
{
    if k > 0 {
        let f = text::split_on(rows[0], '\t');
        let rest = rows.drop_first();
        assert(rest[k - 1] == rows[k]);
        assert forall|j: int, other: nat| 0 <= j < k - 1 implies !#[trigger] leads_out(
            rest[j],
            other,
        ) by {
            assert(rest[j] == rows[j + 1]);
            assert(!leads_out(rows[j + 1], other));
        }
        lemma_proc_route(rest, k - 1, flags);
        assert(rest.skip(k - 1) =~= rows.skip(k));
        if is_default_line(f) {
            let other = text::parsed_uint(text::trimmed(f[3]), 16, 0xffff_ffff)->0;
            assert(leads_out(rows[0], other));
        }
    } else {
        assert(rows.skip(0) =~= rows);
    }
}

/// On Linux the first row of the table, below its title, that leads out gives the gateway and
/// the interface; the table writes the last octet of the gateway first.
pub proof fn law_linux_table_gives_the_gateway(
    table: Seq<char>,
    k: int,
    flags: nat,
    octets: (u8, u8, u8, u8),
)
    requires
        1 <= k < text::lines_of(table).len(),
        leads_out(text::lines_of(table)[k], flags),
        forall|j: int, other: nat|
            1 <= j < k ==> !#[trigger] leads_out(text::lines_of(table)[j], other),
        text::parsed_uint(
            text::trimmed(text::split_on(text::lines_of(table)[k], '\t')[2]),
            16,
            0xffff_ffff,
        ) == Some(
            (octets.3 * 0x100_0000 + octets.2 * 0x1_0000 + octets.1 * 0x100 + octets.0) as nat,
        ),
    ensures
        after_first(Platform::Linux, Ok(table)) == GatewayModel::Found(
            (octets.0 * 0x100_0000 + octets.1 * 0x1_0000 + octets.2 * 0x100 + octets.3) as u32,
            text::trimmed(text::split_on(text::lines_of(table)[k], '\t')[0]),
        ),
{
    let lines = text::lines_of(table);
    let rows = lines.skip(1);
    assert(rows[k - 1] == lines[k]);
    assert forall|j: int, other: nat| 0 <= j < k - 1 implies !#[trigger] leads_out(
        rows[j],
        other,
    ) by {
        assert(rows[j] == lines[j + 1]);
        assert(!leads_out(lines[j + 1], other));
    }
    lemma_proc_route(rows, k - 1, flags);
    assert(rows.skip(k - 1)[0] == lines[k]);
    lemma_last_octet_first(octets.0, octets.1, octets.2, octets.3);
}

#[verifier::spinoff_prover]
proof fn lemma_last_octet_first(a: u8, b: u8, c: u8, d: u8)
    ensures
        swapped((d * 0x100_0000 + c * 0x1_0000 + b * 0x100 + a) as nat) == (a * 0x100_0000 + b
            * 0x1_0000 + c * 0x100 + d) as u32,
{
    let n = (d * 0x100_0000 + c * 0x1_0000 + b * 0x100 + a) as nat;
    assert(n % 0x100 == a);
    assert(n / 0x100 == d * 0x1_0000 + c * 0x100 + b);
    assert(n / 0x1_0000 == d * 0x100 + c);
    assert(n / 0x100_0000 == d);
}

/// Where the table is no help, the answer of `ip` does: the third word is the gateway and the
/// fifth the interface.
pub proof fn law_linux_answer_gives_the_gateway(output: Seq<char>, ip: u32)
    requires
        text::words(output).len() > 4,
        text::words(output)[0] == "default"@,
        text::words(output)[1] == "via"@,
        text::words(output)[2] == net::v4_text(ip),
        text::words(output)[3] == "dev"@,
    ensures
        after_second(Platform::Linux, Ok(output)) == GatewayModel::Found(
            ip,
            text::words(output)[4],
        ),
{
    lemma_v4_read_back(ip);
}

/// A line says that everything goes somewhere.
pub open spec fn is_about_default(line: Seq<char>) -> bool {
    text::words(line).len() > 0 && text::words(line)[0] == "default"@
}

proof fn lemma_linux_v6_lines(lines: Seq<Seq<char>>, k: int)
    requires
        0 <= k < lines.len(),
        forall|j: int| 0 <= j < k ==> !is_about_default(#[trigger] lines[j]),
    ensures
        linux_v6_lines(lines) == linux_v6_lines(lines.skip(k)),
    decreases k,
{
    if k > 0 {
        let rest = lines.drop_first();
        assert forall|j: int| 0 <= j < k - 1 implies !is_about_default(#[trigger] rest[j]) by {
            assert(rest[j] == lines[j + 1]);
        }
        assert(!is_about_default(lines[0]));
        lemma_linux_v6_lines(rest, k - 1);
        assert(rest.skip(k - 1) =~= lines.skip(k));
    } else {
        assert(lines.skip(0) =~= lines);
    }
}

/// On Linux the IPv6 gateway is the third word of the first line on the default route, and the
/// interface the fifth.
pub proof fn law_linux_answer_gives_the_v6_gateway(output: Seq<char>, k: int, ip: u128)
    requires
        0 <= k < text::lines_of(output).len(),
        forall|j: int| 0 <= j < k ==> !is_about_default(#[trigger] text::lines_of(output)[j]),
        ({
            let w = text::words(text::lines_of(output)[k]);
            w.len() > 4 && w[0] == "default"@ && w[1] == "via"@ && w[2] == net::v6_text(ip) && w[3]
                == "dev"@
        }),
        ip != 0,
    ensures
        v6_answer(Platform::Linux, output) == Some(
            (ip, text::words(text::lines_of(output)[k])[4]),
        ),
{
    let lines = text::lines_of(output);
    lemma_v6_read_back(ip);
    lemma_linux_v6_lines(lines, k);
    assert(lines.skip(k)[0] == lines[k]);
}

proof fn lemma_netstat_lines(lines: Seq<Seq<char>>, k: int)
    requires
        0 <= k < lines.len(),
        forall|j: int| 0 <= j < k ==> !is_about_default(#[trigger] lines[j]),
    ensures
        netstat_lines(lines) == netstat_lines(lines.skip(k)),
    decreases k,
{
    if k > 0 {
        let rest = lines.drop_first();
        assert forall|j: int| 0 <= j < k - 1 implies !is_about_default(#[trigger] rest[j]) by {
            assert(rest[j] == lines[j + 1]);
        }
        assert(!is_about_default(lines[0]));
        lemma_netstat_lines(rest, k - 1);
        assert(rest.skip(k - 1) =~= lines.skip(k));
    } else {
        assert(lines.skip(0) =~= lines);
    }
}

/// On macOS, where the first question did not help, the first line on the default route names
/// the gateway second and the interface last.
pub proof fn law_macos_table_gives_the_gateway(output: Seq<char>, k: int, ip: u32)
    requires
        0 <= k < text::lines_of(output).len(),
        forall|j: int| 0 <= j < k ==> !is_about_default(#[trigger] text::lines_of(output)[j]),
        ({
            let w = text::words(text::lines_of(output)[k]);
            w.len() > 3 && w[0] == "default"@ && w[1] == net::v4_text(ip)
        }),
    ensures
        ({
            let w = text::words(text::lines_of(output)[k]);
            after_second(Platform::Macos, Ok(output)) == GatewayModel::Found(ip, w[w.len() - 1])
        }),
{
    let lines = text::lines_of(output);
    lemma_v4_read_back(ip);
    lemma_netstat_lines(lines, k);
    assert(lines.skip(k)[0] == lines[k]);
}

/// A line holds `value` behind `label`.
pub open spec fn says(line: Seq<char>, label: Seq<char>, value: Seq<char>) -> bool {
    exists|gap: Seq<char>|
        text::trimmed(line) == label + gap && value == text::trimmed(gap)
}

/// No line below `k` starts with `label`.
pub open spec fn is_last(lines: Seq<Seq<char>>, k: int, label: Seq<char>) -> bool {
    forall|j: int|
        k < j < lines.len() ==> !text::has_prefix(text::trimmed(#[trigger] lines[j]), label)
}

proof fn lemma_last_labelled(lines: Seq<Seq<char>>, k: int, label: Seq<char>, value: Seq<char>)
    requires
        0 <= k < lines.len(),
        says(lines[k], label, value),
        is_last(lines, k, label),
    ensures
        last_labelled(lines, label) == Some(value),
    decreases lines.len(),
{
    if k == lines.len() - 1 {
        let gap = choose|gap: Seq<char>|
            text::trimmed(lines[k]) == label + gap && value == text::trimmed(gap);
        assert((label + gap).take(label.len() as int) =~= label);
        assert((label + gap).skip(label.len() as int) =~= gap);
    } else {
        assert(!text::has_prefix(text::trimmed(lines[lines.len() - 1]), label));
        let front = lines.drop_last();
        assert(front[k] == lines[k]);
        assert forall|j: int| k < j < front.len() implies !text::has_prefix(
            text::trimmed(#[trigger] front[j]),
            label,
        ) by {
            assert(front[j] == lines[j]);
        }
        lemma_last_labelled(front, k, label, value);
    }
}

/// On macOS the lines that say `gateway:` and `interface:` give the two.
pub proof fn law_macos_answer_gives_the_gateway(
    output: Seq<char>,
    k: int,
    ip: u32,
    i: int,
    name: Seq<char>,
)
    requires
        0 <= k < text::lines_of(output).len(),
        0 <= i < text::lines_of(output).len(),
        says(text::lines_of(output)[k], "gateway:"@, net::v4_text(ip)),
        is_last(text::lines_of(output), k, "gateway:"@),
        says(text::lines_of(output)[i], "interface:"@, name),
        is_last(text::lines_of(output), i, "interface:"@),
    ensures
        after_first(Platform::Macos, Ok(output)) == GatewayModel::Found(ip, name),
{
    let lines = text::lines_of(output);
    lemma_v4_read_back(ip);
    lemma_last_labelled(lines, k, "gateway:"@, net::v4_text(ip));
    lemma_last_labelled(lines, i, "interface:"@, name);
}

/// A row of the Windows table leads everything somewhere.
pub open spec fn is_about_everything(line: Seq<char>) -> bool {
    let w = text::words(line);
    w.len() > 1 && w[0] == "0.0.0.0"@ && w[1] == "0.0.0.0"@
}

proof fn lemma_route_print_lines(lines: Seq<Seq<char>>, k: int)
    requires
        0 <= k < lines.len(),
        forall|j: int| 0 <= j < k ==> !is_about_everything(#[trigger] lines[j]),
    ensures
        route_print_lines(lines) == route_print_lines(lines.skip(k)),
    decreases k,
{
    if k > 0 {
        let rest = lines.drop_first();
        assert forall|j: int| 0 <= j < k - 1 implies !is_about_everything(#[trigger] rest[j]) by {
            assert(rest[j] == lines[j + 1]);
        }
        assert(!is_about_everything(lines[0]));
        lemma_route_print_lines(rest, k - 1);
        assert(rest.skip(k - 1) =~= lines.skip(k));
    } else {
        assert(lines.skip(0) =~= lines);
    }
}

/// On Windows the first row for every destination and every mask gives the gateway third and
/// the address of the interface fourth.
pub proof fn law_windows_table_gives_the_gateway(output: Seq<char>, k: int, ip: u32)
    requires
        0 <= k < text::lines_of(output).len(),
        forall|j: int| 0 <= j < k ==> !is_about_everything(#[trigger] text::lines_of(output)[j]),
        ({
            let w = text::words(text::lines_of(output)[k]);
            w.len() > 3 && w[0] == "0.0.0.0"@ && w[1] == "0.0.0.0"@ && w[2] == net::v4_text(ip)
        }),
    ensures
        after_first(Platform::Windows, Ok(output)) == GatewayModel::Found(
            ip,
            text::words(text::lines_of(output)[k])[3],
        ),
{
    let lines = text::lines_of(output);
    lemma_v4_read_back(ip);
    lemma_route_print_lines(lines, k);
    assert(lines.skip(k)[0] == lines[k]);
}

} // verus!
