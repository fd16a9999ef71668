//! Keeping the program's own connections out of the tunnel.
//!
//! While the tunnel holds the default route, the program's own sockets are
//! bound to the physical interface.

use vstd::prelude::*;
use vstd::string::StringSliceAdditionalSpecFns;

use crate::config;
use crate::platform::Platform;
use crate::text;

verus! {

broadcast use {
    vstd::seq::group_seq_axioms,
    vstd::slice::group_slice_axioms,
    vstd::array::group_array_axioms,
    vstd::string::group_string_axioms,
    vstd::std_specs::vec::group_vec_axioms,
};

/// The interface for the program's own sockets. No index is 0.
#[derive(Debug, Clone)]
pub struct OutboundBind {
    pub if_index_v4: Option<u32>,
    pub if_index_v6: Option<u32>,
    pub if_name: Option<String>,
}

/// The interface as its contracts speak of it.
pub struct BindModel {
    pub if_index_v4: Option<u32>,
    pub if_index_v6: Option<u32>,
    pub if_name: Option<Seq<char>>,
}

impl View for OutboundBind {
    type V = BindModel;

    open spec fn view(&self) -> BindModel {
        BindModel {
            if_index_v4: self.if_index_v4,
            if_index_v6: self.if_index_v6,
            if_name: config::opt_text(self.if_name),
        }
    }
}

impl Default for OutboundBind {
    fn default() -> (r: Self)
        ensures
            r@ == (BindModel { if_index_v4: None, if_index_v6: None, if_name: None }),
    {
        OutboundBind { if_index_v4: None, if_index_v6: None, if_name: None }
    }
}

impl OutboundBind {
    /// The same interface.
    pub fn duplicate(&self) -> (r: OutboundBind)
        ensures
            r@ == self@,
    {
        OutboundBind {
            if_index_v4: self.if_index_v4,
            if_index_v6: self.if_index_v6,
            if_name: config::copy_text(&self.if_name),
        }
    }
}

/// The interface in use, if sockets are bound at present.
pub struct BindState {
    bind: Option<OutboundBind>,
}

impl View for BindState {
    type V = Option<BindModel>;

    closed spec fn view(&self) -> Option<BindModel> {
        match self.bind {
            Some(b) => Some(b@),
            None => None,
        }
    }
}

impl BindState {
    /// Sockets are not bound.
    pub fn new() -> (r: Self)
        ensures
            r@ is None,
    {
        BindState { bind: None }
    }
}

/// From now on sockets are bound.
pub fn set_outbound_bind(state: &mut BindState, bind: OutboundBind)
    ensures
        final(state)@ == Some(bind@),
{
    state.bind = Some(bind);
}

/// From now on sockets are not bound.
pub fn clear_outbound_bind(state: &mut BindState)
    ensures
        final(state)@ is None,
{
    state.bind = None;
}

/// The interface to which sockets are bound.
pub fn outbound_bind(state: &BindState) -> (r: Option<OutboundBind>)
    ensures
        match r {
            Some(b) => state@ == Some(b@),
            None => state@ is None,
        },
{
    match &state.bind {
        Some(b) => Some(b.duplicate()),
        None => None,
    }
}

// ---------------------------------------------------------------------------
// Socket options
// ---------------------------------------------------------------------------

/// The value of a socket option.
#[derive(Debug)]
pub enum OptionValue {
    Bytes(Vec<u8>),
    /// A number in the order of bytes of the machine.
    Number(u32),
}

/// An option to be set on a socket.
#[derive(Debug)]
pub struct SocketOption {
    pub level: i32,
    pub name: i32,
    pub value: OptionValue,
}

/// The bytes of a number, most significant first.
pub open spec fn network_order(n: u32) -> Seq<u8> {
    seq![
        (n / 0x100_0000) as u8,
        (n / 0x1_0000 % 0x100) as u8,
        (n / 0x100 % 0x100) as u8,
        (n % 0x100) as u8,
    ]
}

/// The index that counts for a socket. Windows takes that for IPv4 where it
/// knows none for IPv6: it is the same interface.
pub open spec fn bound_index(platform: Platform, bind: BindModel, is_v6: bool) -> Option<u32> {
    let own = if is_v6 {
        bind.if_index_v6
    } else {
        bind.if_index_v4
    };
    if platform == Platform::Windows && own is None {
        bind.if_index_v4
    } else {
        own
    }
}

/// The option that binds a socket, if there is one.
pub open spec fn is_socket_option(
    r: Option<SocketOption>,
    platform: Platform,
    bind: BindModel,
    is_v6: bool,
) -> bool {
    match platform {
        Platform::Windows => match bound_index(platform, bind, is_v6) {
            Some(i) => r matches Some(o) && o.level == (if is_v6 {
                41i32
            } else {
                0
            }) && o.name == 31 && (o.value matches OptionValue::Bytes(b) && b@ == network_order(i)),
            None => r is None,
        },
        Platform::Linux => match bind.if_name {
            Some(n) => r matches Some(o) && o.level == 1 && o.name == 25 && (
            o.value matches OptionValue::Bytes(b) && b@ == vstd::utf8::encode_utf8(n)),
            None => r is None,
        },
        Platform::Macos => match bound_index(platform, bind, is_v6) {
            Some(i) => r matches Some(o) && o.level == (if is_v6 {
                41i32
            } else {
                0
            }) && o.name == (if is_v6 {
                125i32
            } else {
                25
            }) && (o.value matches OptionValue::Number(n) && n == i),
            None => r is None,
        },
        Platform::Other => r is None,
    }
}

/// The option that binds a socket to an interface, if there is one.
pub fn bind_option(platform: Platform, bind: &OutboundBind, is_v6: bool) -> (r: Option<
    SocketOption,
>)
    ensures
        is_socket_option(r, platform, bind@, is_v6),
{
    let level: i32 = if is_v6 {
        41
    } else {
        0
    };
    let own = if is_v6 {
        bind.if_index_v6
    } else {
        bind.if_index_v4
    };
    match platform {
        Platform::Windows => {
            let index: u32 = match own {
                Some(i) => i,
                None => match bind.if_index_v4 {
                    Some(i) => i,
                    None => {
                        return None;
                    },
                },
            };
            let mut value: Vec<u8> = Vec::new();
            value.push((index / 0x100_0000) as u8);
            value.push((index / 0x1_0000 % 0x100) as u8);
            value.push((index / 0x100 % 0x100) as u8);
            value.push((index % 0x100) as u8);
            assert(value@ =~= network_order(index));
            Some(SocketOption { level, name: 31, value: OptionValue::Bytes(value) })
        },
        Platform::Linux => match &bind.if_name {
            Some(name) => {
                let mut value: Vec<u8> = Vec::new();
                text::append_bytes(&mut value, name.as_str().as_bytes());
                assert(value@ =~= vstd::utf8::encode_utf8(name@));
                Some(SocketOption { level: 1, name: 25, value: OptionValue::Bytes(value) })
            },
            None => None,
        },
        Platform::Macos => match own {
            Some(i) => Some(
                SocketOption {
                    level,
                    name: if is_v6 {
                        125
                    } else {
                        25
                    },
                    value: OptionValue::Number(i),
                },
            ),
            None => None,
        },
        Platform::Other => None,
    }
}

/// The option that binds a socket before it connects: none while sockets are
/// not bound.
pub fn apply_to_tcp_socket(state: &BindState, platform: Platform, is_v6: bool) -> (r: Option<
    SocketOption,
>)
    ensures
        match state@ {
            Some(b) => is_socket_option(r, platform, b, is_v6),
            None => r is None,
        },
{
    match &state.bind {
        Some(bind) => bind_option(platform, bind, is_v6),
        None => None,
    }
}

// ---------------------------------------------------------------------------
// Interfaces
// ---------------------------------------------------------------------------

/// An address of an adapter as Windows holds it.
pub struct RawAddress {
    pub family: u16,
    pub data: [u8; 14],
}

/// An adapter as Windows lists it.
pub struct Adapter {
    pub if_index: u32,
    pub friendly_name: String,
    pub addresses: Vec<RawAddress>,
}

/// The IPv4 address that a raw address holds, behind its port.
pub open spec fn raw_ipv4(a: RawAddress) -> Option<u32> {
    if a.family == 2 {
        Some(
            (a.data@[2] * 0x100_0000 + a.data@[3] * 0x1_0000 + a.data@[4] * 0x100
                + a.data@[5]) as u32,
        )
    } else {
        None
    }
}

/// The adapter has the address.
pub open spec fn owns_address(a: Adapter, ip: u32) -> bool {
    exists|i: int| 0 <= i < a.addresses@.len() && #[trigger] raw_ipv4(a.addresses@[i]) == Some(ip)
}

/// The adapter is the one that is looked for.
pub open spec fn is_wanted(a: Adapter, name: Seq<char>, ip: Option<u32>) -> bool {
    ||| name.len() > 0 && a.friendly_name@ == name
    ||| ip is Some && owns_address(a, ip->0)
}

/// The index of the first adapter that is looked for.
pub open spec fn index_of(adapters: Seq<Adapter>, name: Seq<char>, ip: Option<u32>) -> Option<u32>
    decreases adapters.len(),
{
    if adapters.len() == 0 {
        None
    } else if is_wanted(adapters[0], name, ip) {
        if adapters[0].if_index == 0 {
            None
        } else {
            Some(adapters[0].if_index)
        }
    } else {
        index_of(adapters.drop_first(), name, ip)
    }
}

fn has_address(a: &Adapter, ip: u32) -> (r: bool)
    ensures
        r == owns_address(*a, ip),
{
    let mut i: usize = 0;
    while i < a.addresses.len()
        invariant
            i <= a.addresses@.len(),
            forall|k: int| 0 <= k < i ==> #[trigger] raw_ipv4(a.addresses@[k]) != Some(ip),
        decreases a.addresses@.len() - i,
    {
        let raw = &a.addresses[i];
        if raw.family == 2 {
            let found: u32 = raw.data[2] as u32 * 0x100_0000 + raw.data[3] as u32 * 0x1_0000
                + raw.data[4] as u32 * 0x100 + raw.data[5] as u32;
            assert(raw_ipv4(a.addresses@[i as int]) == Some(found));
            if found == ip {
                return true;
            }
        }
        i = i + 1;
    }
    false
}

/// The index of the first adapter with the name, or with the address.
pub fn interface_index_windows(adapters: &[Adapter], if_name: &str, if_ip: Option<u32>) -> (r:
    Option<u32>)
    ensures
        r == index_of(adapters@, if_name@, if_ip),
{
    let named: bool = if_name.as_bytes().len() > 0;
    proof {
        vstd::utf8::encode_utf8_decode_utf8(if_name@);
        if if_name@.len() == 0 {
            assert(if_name@ =~= Seq::<char>::empty());
        }
        if if_name.spec_bytes().len() == 0 {
            assert(if_name.spec_bytes() =~= vstd::utf8::encode_utf8(Seq::<char>::empty()));
            vstd::utf8::encode_utf8_decode_utf8(Seq::<char>::empty());
        }
    }
    let mut i: usize = 0;
    assert(adapters@.skip(0) =~= adapters@);
    while i < adapters.len()
        invariant
            i <= adapters@.len(),
            named == (if_name@.len() > 0),
            index_of(adapters@, if_name@, if_ip) == index_of(
                adapters@.skip(i as int),
                if_name@,
                if_ip,
            ),
        decreases adapters@.len() - i,
    {
        let a = &adapters[i];
        assert(adapters@.skip(i as int)[0] == *a);
        assert(adapters@.skip(i as int).drop_first() =~= adapters@.skip(i + 1));
        let by_name: bool = named && text::str_eq(a.friendly_name.as_str(), if_name);
        let by_ip: bool = match if_ip {
            Some(ip) => has_address(a, ip),
            None => false,
        };
        if by_name || by_ip {
            return if a.if_index == 0 {
                None
            } else {
                Some(a.if_index)
            };
        }
        i = i + 1;
    }
    None
}

/// The index of the adapter with the name.
pub fn interface_index_by_name(adapters: &[Adapter], if_name: &str) -> (r: Option<u32>)
    ensures
        r == index_of(adapters@, if_name@, None),
{
    interface_index_windows(adapters, if_name, None)
}

/// The index of the adapter with the address.
pub fn interface_index_by_ip(adapters: &[Adapter], ip: u32) -> (r: Option<u32>)
    ensures
        r == index_of(adapters@, Seq::empty(), Some(ip)),
{
    let r = interface_index_windows(adapters, "", Some(ip));
    proof {
        reveal_strlit("");
        assert(""@ =~= Seq::<char>::empty());
    }
    r
}

/// An index that is found is an index: it is not 0.
pub proof fn law_index_is_not_zero(adapters: Seq<Adapter>, name: Seq<char>, ip: Option<u32>)
    ensures
        index_of(adapters, name, ip) != Some(0u32),
    decreases adapters.len(),
{
    if adapters.len() > 0 {
        law_index_is_not_zero(adapters.drop_first(), name, ip);
    }
}

/// An interface index goes to Windows with its highest byte first.
pub proof fn law_index_goes_out_highest_byte_first(a: u8, b: u8, c: u8, d: u8)
    ensures
        network_order((a * 0x100_0000 + b * 0x1_0000 + c * 0x100 + d) as u32) == seq![a, b, c, d],
{
    let n = (a * 0x100_0000 + b * 0x1_0000 + c * 0x100 + d) as u32;
    assert(n / 0x100_0000 == a);
    assert(n / 0x1_0000 == a * 0x100 + b);
    assert(n / 0x100 == a * 0x1_0000 + b * 0x100 + c);
    assert(network_order(n) =~= seq![a, b, c, d]);
}

/// A socket is tied to the interface of its own kind of address. On Windows a socket for IPv6
/// falls back on the index for IPv4; on macOS it stays free. On Linux the name counts alone.
pub proof fn law_socket_is_tied_to_its_interface(
    r: Option<SocketOption>,
    platform: Platform,
    bind: BindModel,
    is_v6: bool,
)
    requires
        is_socket_option(r, platform, bind, is_v6),
    ensures
        platform == Platform::Linux ==> r is Some == bind.if_name is Some,
        platform == Platform::Macos ==> r is Some == (if is_v6 {
            bind.if_index_v6 is Some
        } else {
            bind.if_index_v4 is Some
        }),
        platform == Platform::Windows ==> r is Some == (bind.if_index_v4 is Some || is_v6
            && bind.if_index_v6 is Some),
        platform == Platform::Other ==> r is None,
        platform == Platform::Macos && r is Some ==> (r->0.value matches OptionValue::Number(n)
            && Some(n) == (if is_v6 {
            bind.if_index_v6
        } else {
            bind.if_index_v4
        })),
        platform == Platform::Windows && r is Some && is_v6 && bind.if_index_v6 is Some ==> (
        r->0.value matches OptionValue::Bytes(b) && b@ == network_order(bind.if_index_v6->0)),
        platform == Platform::Windows && r is Some && !(is_v6 && bind.if_index_v6 is Some) ==> (
        r->0.value matches OptionValue::Bytes(b) && b@ == network_order(bind.if_index_v4->0)),
        platform != Platform::Linux && r is Some ==> r->0.level == (if is_v6 {
            41i32
        } else {
            0
        }),
{
}

/// The first adapter with the name, or with the address, gives its index.
pub proof fn law_first_adapter_gives_the_index(
    adapters: Seq<Adapter>,
    k: int,
    name: Seq<char>,
    ip: Option<u32>,
)
    requires
        0 <= k < adapters.len(),
        adapters[k].if_index != 0,
        name.len() > 0 && adapters[k].friendly_name@ == name || ip is Some && owns_address(
            adapters[k],
            ip->0,
        ),
        forall|j: int|
            0 <= j < k ==> adapters[j].friendly_name@ != name && (ip is Some ==> !owns_address(
                #[trigger] adapters[j],
                ip->0,
            )),
    ensures
        index_of(adapters, name, ip) == Some(adapters[k].if_index),
    decreases k,
{
    if k > 0 {
        let rest = adapters.drop_first();
        assert(rest[k - 1] == adapters[k]);
        assert(adapters[0].friendly_name@ != name && (ip is Some ==> !owns_address(
            adapters[0],
            ip->0,
        )));
        assert forall|j: int| 0 <= j < k - 1 implies rest[j].friendly_name@ != name && (ip is Some
            ==> !owns_address(#[trigger] rest[j], ip->0)) by {
            assert(rest[j] == adapters[j + 1]);
        }
        law_first_adapter_gives_the_index(rest, k - 1, name, ip);
    }
}

} // verus!
