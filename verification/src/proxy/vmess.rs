//! VMess AEAD: key derivation, request header, and the chunked stream.

use crate::bytes;
use crate::config::TransportConfig;
use crate::crypto;
use crate::net;
use crate::proxy::address;
use crate::proxy::transport;
use crate::proxy::transport::TlsConnFactory;
use crate::text;
use vstd::prelude::*;
use vstd::string::StringSliceAdditionalSpecFns;

verus! {

broadcast use {
    vstd::seq::group_seq_axioms,
    vstd::slice::group_slice_axioms,
    vstd::array::group_array_axioms,
    vstd::string::group_string_axioms,
    vstd::std_specs::vec::group_vec_axioms,
};

// ---------------------------------------------------------------------------
// Security types
// ---------------------------------------------------------------------------

/// The AEAD security types of VMess.
#[derive(Debug, Clone, Copy, PartialEq, Eq, Structural)]
pub enum VMessSecurity {
    Aes128Gcm,
    Chacha20Poly1305,
    Auto,
    Unencrypted,
    Zero,
}

/// The security type that a cipher name selects, the name in lower case.
pub open spec fn security_named(name: Seq<char>) -> VMessSecurity {
    if name == "chacha20-poly1305"@ || name == "chacha20-ietf-poly1305"@ {
        VMessSecurity::Chacha20Poly1305
    } else if name == "none"@ {
        VMessSecurity::Unencrypted
    } else if name == "zero"@ {
        VMessSecurity::Zero
    } else {
        VMessSecurity::Aes128Gcm
    }
}

impl VMessSecurity {
    /// The byte that stands for the type in a request header.
    pub open spec fn code(self) -> u8 {
        match self {
            VMessSecurity::Aes128Gcm => 3,
            VMessSecurity::Chacha20Poly1305 => 4,
            VMessSecurity::Auto => 3,
            VMessSecurity::Unencrypted => 5,
            VMessSecurity::Zero => 6,
        }
    }

    /// The type for a cipher name; a name that is not known means AES-128-GCM.
    pub fn from_str(s: &str) -> (r: Self)
        ensures
            r == security_named(text::folded(s@)),
    {
        let name = text::fold(s);
        let n = name.as_str();
        if text::str_eq(n, "chacha20-poly1305") || text::str_eq(n, "chacha20-ietf-poly1305") {
            VMessSecurity::Chacha20Poly1305
        } else if text::str_eq(n, "none") {
            VMessSecurity::Unencrypted
        } else if text::str_eq(n, "zero") {
            VMessSecurity::Zero
        } else {
            VMessSecurity::Aes128Gcm
        }
    }

    /// The byte that stands for the type in a request header.
    pub fn byte(&self) -> (r: u8)
        ensures
            r == self.code(),
    {
        match self {
            VMessSecurity::Aes128Gcm => 0x03,
            VMessSecurity::Chacha20Poly1305 => 0x04,
            VMessSecurity::Auto => 0x03,
            VMessSecurity::Unencrypted => 0x05,
            VMessSecurity::Zero => 0x06,
        }
    }
}

// ---------------------------------------------------------------------------
// Key derivation
// ---------------------------------------------------------------------------

/// The suffix that makes a command key out of a user id.
pub const CMD_KEY_MAGIC: &'static str = "c48619fe-8f02-49e0-b9e9-edf763e17e21";

/// A user's command key: the MD5 of the id and the fixed suffix.
pub open spec fn cmd_key_of(uuid: Seq<u8>) -> Seq<u8> {
    crypto::md5_of(uuid + CMD_KEY_MAGIC.spec_bytes())
}

/// Derives a user's command key.
pub fn vmess_cmd_key(uuid: &[u8; 16]) -> (r: [u8; 16])
    ensures
        r@ == cmd_key_of(uuid@),
{
    let mut msg: Vec<u8> = Vec::new();
    text::append_bytes(&mut msg, uuid.as_slice());
    text::append_bytes(&mut msg, CMD_KEY_MAGIC.as_bytes());
    assert(msg@ =~= uuid@ + CMD_KEY_MAGIC.spec_bytes());
    let d = crypto::md5(msg.as_slice());
    assert(d@.take(16) =~= d@);
    bytes::array16(d.as_slice())
}

/// A key as a block of 64 bytes: zero-filled, and hashed first if longer.
pub open spec fn key_block(key: Seq<u8>) -> Seq<u8> {
    let k = if key.len() > 64 { crypto::sha256_of(key) } else { key };
    Seq::new(64, |i: int| if i < k.len() { k[i] } else { 0u8 })
}

/// A key block with every byte combined with the pad byte.
pub open spec fn padded_block(key: Seq<u8>, pad: u8) -> Seq<u8> {
    key_block(key).map_values(|b: u8| pad ^ b)
}

/// HMAC-SHA256 of a message.
pub open spec fn hmac_sha256_of(key: Seq<u8>, msg: Seq<u8>) -> Seq<u8> {
    crypto::sha256_of(
        padded_block(key, 0x5c) + crypto::sha256_of(padded_block(key, 0x36) + msg),
    )
}

/// The base key of the key derivation.
pub const KDF_BASE_KEY: &'static str = "VMess AEAD KDF";

/// The nested hash of the key derivation. Without a path it is HMAC-SHA256
/// under the base key; each path makes it an HMAC of the hash before, keyed
/// with the path.
pub open spec fn kdf_hash(paths: Seq<Seq<u8>>, msg: Seq<u8>) -> Seq<u8>
    decreases paths.len(),
{
    if paths.len() == 0 {
        hmac_sha256_of(KDF_BASE_KEY.spec_bytes(), msg)
    } else {
        let below = paths.drop_last();
        kdf_hash(
            below,
            padded_block(paths.last(), 0x5c) + kdf_hash(
                below,
                padded_block(paths.last(), 0x36) + msg,
            ),
        )
    }
}

/// The views of a list of paths.
pub open spec fn path_views(paths: Seq<&[u8]>) -> Seq<Seq<u8>> {
    paths.map_values(|p: &[u8]| p@)
}

/// A key as a block of 64 bytes, every byte combined with the pad byte.
pub fn hmac_block_pad(key: &[u8], pad: u8) -> (r: Vec<u8>)
    ensures
        r@ == padded_block(key@, pad),
        r@.len() == 64,
{
    let long = key.len() > 64;
    let hashed = if long { crypto::sha256(key) } else { Vec::new() };
    let k: &[u8] = if long { hashed.as_slice() } else { key };
    let mut out: Vec<u8> = Vec::new();
    let mut i: usize = 0;
    while i < 64
        invariant
            i <= 64,
            out@.len() == i,
            k@ == (if key@.len() > 64 { crypto::sha256_of(key@) } else { key@ }),
            forall|j: int| 0 <= j < i ==> out@[j] == padded_block(key@, pad)[j],
        decreases 64 - i,
    {
        let b: u8 = if i < k.len() { k[i] } else { 0 };
        out.push(pad ^ b);
        i += 1;
    }
    assert(out@ =~= padded_block(key@, pad));
    out
}

/// HMAC-SHA256 of a message.
fn hmac_sha256(key: &[u8], msg: &[u8]) -> (r: Vec<u8>)
    ensures
        r@ == hmac_sha256_of(key@, msg@),
        r@.len() == 32,
{
    let mut inner = hmac_block_pad(key, 0x36);
    text::append_bytes(&mut inner, msg);
    let digest = crypto::sha256(inner.as_slice());
    let mut outer = hmac_block_pad(key, 0x5c);
    text::append_bytes(&mut outer, digest.as_slice());
    crypto::sha256(outer.as_slice())
}

/// The nested hash over the first `depth` paths.
fn kdf_level(paths: &[&[u8]], depth: usize, msg: &[u8]) -> (r: Vec<u8>)
    requires
        depth <= paths@.len(),
    ensures
        r@ == kdf_hash(path_views(paths@.take(depth as int)), msg@),
        r@.len() == 32,
    decreases depth,
{
    let ghost views = path_views(paths@.take(depth as int));
    if depth == 0 {
        return hmac_sha256(KDF_BASE_KEY.as_bytes(), msg);
    }
    let path = paths[depth - 1];
    proof {
        assert(views.last() == path@);
        assert(views.drop_last() =~= path_views(paths@.take(depth - 1)));
    }
    let mut inner = hmac_block_pad(path, 0x36);
    text::append_bytes(&mut inner, msg);
    let digest = kdf_level(paths, depth - 1, inner.as_slice());
    let mut outer = hmac_block_pad(path, 0x5c);
    text::append_bytes(&mut outer, digest.as_slice());
    kdf_level(paths, depth - 1, outer.as_slice())
}

/// Derives 32 bytes from a key along a list of paths.
pub fn kdf(key: &[u8], paths: &[&[u8]]) -> (r: Vec<u8>)
    ensures
        r@ == kdf_hash(path_views(paths@), key@),
        r@.len() == 32,
{
    assert(paths@.take(paths@.len() as int) =~= paths@);
    kdf_level(paths, paths.len(), key)
}

// ---------------------------------------------------------------------------
// Request header
// ---------------------------------------------------------------------------

/// Why a VMess request or stream failed.
#[derive(Debug)]
pub enum VMessError {
    /// The target's name does not fit a request header; its length in bytes.
    DomainTooLong(usize),
    /// The length block of the response header does not open.
    HeaderLengthSealed,
    /// The response header announces more than 256 bytes.
    HeaderTooLarge(usize),
    /// The response header does not open.
    HeaderSealed,
    /// The response header carries another authentication byte.
    AuthMismatch { expected: u8, got: u8 },
    /// The transport ended inside the response header.
    HeaderCutShort,
    /// The transport failed inside the response header, with its message.
    HeaderTransport(String),
    /// The transport took no bytes of a chunk.
    WriteZero,
    /// The stream was shut down before the write.
    Closed,
}

/// `SystemTime::now` against `UNIX_EPOCH`, in whole seconds, zero for a clock
/// before the epoch. What the clock shows is left open.
#[verifier::external_body]
pub(crate) fn unix_seconds() -> u64 {
    std::time::SystemTime::now().duration_since(std::time::UNIX_EPOCH).unwrap_or_default().as_secs()
}

/// The path of the key that encrypts authentication ids.
pub const AUTH_ID_PATH: &'static str = "AES Auth ID Encryption";

/// The plain form of an authentication id: time stamp, four chosen bytes, and
/// the checksum of both.
pub open spec fn auth_id_block(timestamp: u64, salt: Seq<u8>) -> Seq<u8> {
    let body = net::be_bytes(timestamp as nat, 8) + salt;
    body + net::be_bytes(crypto::crc32_of(body) as nat, 4)
}

/// An authentication id: its plain form encrypted with AES-128.
pub open spec fn auth_id_of(cmd_key: Seq<u8>, timestamp: u64, salt: Seq<u8>) -> Seq<u8> {
    crypto::aes128_block_of(
        kdf_hash(seq![AUTH_ID_PATH.spec_bytes()], cmd_key).take(16),
        auth_id_block(timestamp, salt),
    )
}

/// The authentication id for a time stamp and four chosen bytes.
pub fn auth_id_with(cmd_key: &[u8; 16], timestamp: u64, salt: &[u8]) -> (r: [u8; 16])
    requires
        salt@.len() == 4,
    ensures
        r@ == auth_id_of(cmd_key@, timestamp, salt@),
{
    let paths = [AUTH_ID_PATH.as_bytes()];
    assert(path_views(paths@) =~= seq![AUTH_ID_PATH.spec_bytes()]);
    let derived = kdf(cmd_key.as_slice(), paths.as_slice());
    let key = bytes::array16(derived.as_slice());
    let mut block: Vec<u8> = Vec::new();
    net::push_be(&mut block, timestamp as u128, 8);
    text::append_bytes(&mut block, salt);
    let crc: u32 = crypto::crc32(block.as_slice());
    net::push_be(&mut block, crc as u128, 4);
    proof {
        net::lemma_be_bytes_len(timestamp as nat, 8);
        net::lemma_be_bytes_len(crc as nat, 4);
        assert(block@ =~= auth_id_block(timestamp, salt@));
    }
    let sealed = crypto::aes128_block(key.as_slice(), block.as_slice());
    assert(sealed@.take(16) =~= sealed@);
    bytes::array16(sealed.as_slice())
}

/// The authentication id for a time stamp, its four free bytes left to chance.
pub fn create_auth_id(cmd_key: &[u8; 16], timestamp: u64) -> (r: [u8; 16])
    ensures
        exists|salt: Seq<u8>|
            salt.len() == 4 && r@ == #[trigger] auth_id_of(cmd_key@, timestamp, salt),
{
    let salt = crypto::random_bytes(4);
    auth_id_with(cmd_key, timestamp, salt.as_slice())
}

/// One step of FNV-1a with 32 bits.
pub open spec fn fnv1a_step(hash: u32, b: u8) -> u32 {
    (hash ^ (b as u32)).wrapping_mul(0x01000193u32)
}

/// The 32-bit FNV-1a hash of a message.
pub open spec fn fnv1a_of(data: Seq<u8>) -> u32
    decreases data.len(),
{
    if data.len() == 0 {
        0x811c9dc5u32
    } else {
        fnv1a_step(fnv1a_of(data.drop_last()), data.last())
    }
}

/// The 32-bit FNV-1a hash of a message.
pub fn fnv1a32(data: &[u8]) -> (r: u32)
    ensures
        r == fnv1a_of(data@),
{
    let mut hash: u32 = 0x811c9dc5;
    let mut i: usize = 0;
    while i < data.len()
        invariant
            i <= data@.len(),
            hash == fnv1a_of(data@.take(i as int)),
        decreases data@.len() - i,
    {
        proof {
            assert(data@.take(i + 1).drop_last() =~= data@.take(i as int));
        }
        hash = (hash ^ (data[i] as u32)).wrapping_mul(0x01000193u32);
        i += 1;
    }
    assert(data@.take(i as int) =~= data@);
    hash
}

/// The type bytes of VMess addresses.
pub open spec fn vmess_tags() -> address::AddressTags {
    address::AddressTags { v4: 1, v6: 3, domain: 2 }
}

/// What a client asks for in a request header.
pub struct VMessRequest<'a> {
    pub body_key: &'a [u8; 16],
    pub body_iv: &'a [u8; 16],
    /// The byte that the response header must repeat.
    pub resp_auth: u8,
    pub security: VMessSecurity,
    pub host: &'a str,
    pub port: u16,
}

/// The plain request header before its checksum.
pub open spec fn header_body(req: VMessRequest, padding: Seq<u8>) -> Seq<u8> {
    seq![1u8] + req.body_iv@ + req.body_key@ + seq![
        req.resp_auth,
        1u8,
        (padding.len() * 16 + req.security.code()) as u8,
        0u8,
        1u8,
    ] + net::be_bytes(req.port as nat, 2) + address::host_bytes(vmess_tags(), req.host) + padding
}

/// The plain request header: its fields and their FNV-1a checksum.
pub open spec fn plain_header(req: VMessRequest, padding: Seq<u8>) -> Seq<u8> {
    let body = header_body(req, padding);
    body + net::be_bytes(fnv1a_of(body) as nat, 4)
}

/// The key material for one label of the request header.
pub open spec fn header_material(
    cmd_key: Seq<u8>,
    label: Seq<u8>,
    auth_id: Seq<u8>,
    nonce: Seq<u8>,
) -> Seq<u8> {
    kdf_hash(seq![label, auth_id, nonce], cmd_key)
}

/// A message sealed under the keys of two labels, bound to the
/// authentication id.
pub open spec fn header_sealed(
    cmd_key: Seq<u8>,
    key_label: Seq<u8>,
    nonce_label: Seq<u8>,
    auth_id: Seq<u8>,
    nonce: Seq<u8>,
    msg: Seq<u8>,
) -> Seq<u8> {
    crypto::gcm_sealed(
        header_material(cmd_key, key_label, auth_id, nonce).take(16),
        header_material(cmd_key, nonce_label, auth_id, nonce).take(12),
        auth_id,
        msg,
    )->0
}

/// What the holder of the command key reads out of a sealed message.
pub open spec fn header_opened(
    cmd_key: Seq<u8>,
    key_label: Seq<u8>,
    nonce_label: Seq<u8>,
    auth_id: Seq<u8>,
    nonce: Seq<u8>,
    sealed: Seq<u8>,
) -> Option<Seq<u8>> {
    crypto::gcm_opened(
        header_material(cmd_key, key_label, auth_id, nonce).take(16),
        header_material(cmd_key, nonce_label, auth_id, nonce).take(12),
        auth_id,
        sealed,
    )
}

pub const LENGTH_KEY_LABEL: &'static str = "VMess Header AEAD Key_Length";

pub const LENGTH_NONCE_LABEL: &'static str = "VMess Header AEAD Nonce_Length";

pub const HEADER_KEY_LABEL: &'static str = "VMess Header AEAD Key";

pub const HEADER_NONCE_LABEL: &'static str = "VMess Header AEAD Nonce";

/// A request on the wire: authentication id, sealed length, nonce, sealed
/// header.
pub open spec fn request_bytes(
    cmd_key: Seq<u8>,
    auth_id: Seq<u8>,
    nonce: Seq<u8>,
    header: Seq<u8>,
) -> Seq<u8> {
    auth_id + header_sealed(
        cmd_key,
        LENGTH_KEY_LABEL.spec_bytes(),
        LENGTH_NONCE_LABEL.spec_bytes(),
        auth_id,
        nonce,
        net::be_bytes(header.len(), 2),
    ) + nonce + header_sealed(
        cmd_key,
        HEADER_KEY_LABEL.spec_bytes(),
        HEADER_NONCE_LABEL.spec_bytes(),
        auth_id,
        nonce,
        header,
    )
}

/// The holder of the command key reads the header out of a request.
pub open spec fn request_opens(cmd_key: Seq<u8>, wire: Seq<u8>, header: Seq<u8>) -> bool {
    let auth_id = wire.take(16);
    let nonce = wire.subrange(34, 42);
    &&& wire.len() == 58 + header.len()
    &&& header_opened(
        cmd_key,
        LENGTH_KEY_LABEL.spec_bytes(),
        LENGTH_NONCE_LABEL.spec_bytes(),
        auth_id,
        nonce,
        wire.subrange(16, 34),
    ) == Some(net::be_bytes(header.len(), 2))
    &&& header_opened(
        cmd_key,
        HEADER_KEY_LABEL.spec_bytes(),
        HEADER_NONCE_LABEL.spec_bytes(),
        auth_id,
        nonce,
        wire.skip(42),
    ) == Some(header)
}

fn seal_labelled(
    cmd_key: &[u8; 16],
    key_label: &str,
    nonce_label: &str,
    auth_id: &[u8; 16],
    nonce: &[u8],
    msg: &[u8],
) -> (r: Vec<u8>)
    requires
        msg@.len() <= 0xffff,
    ensures
        r@ == header_sealed(
            cmd_key@,
            key_label.spec_bytes(),
            nonce_label.spec_bytes(),
            auth_id@,
            nonce@,
            msg@,
        ),
        r@.len() == msg@.len() + 16,
        header_opened(
            cmd_key@,
            key_label.spec_bytes(),
            nonce_label.spec_bytes(),
            auth_id@,
            nonce@,
            r@,
        ) == Some(msg@),
{
    let key_paths = [key_label.as_bytes(), auth_id.as_slice(), nonce];
    let nonce_paths = [nonce_label.as_bytes(), auth_id.as_slice(), nonce];
    proof {
        assert(path_views(key_paths@) =~= seq![key_label.spec_bytes(), auth_id@, nonce@]);
        assert(path_views(nonce_paths@) =~= seq![nonce_label.spec_bytes(), auth_id@, nonce@]);
    }
    let key_material = kdf(cmd_key.as_slice(), key_paths.as_slice());
    let nonce_material = kdf(cmd_key.as_slice(), nonce_paths.as_slice());
    let key = bytes::array16(key_material.as_slice());
    let iv = bytes::array12(nonce_material.as_slice());
    let sealed = crypto::gcm_seal(key.as_slice(), iv.as_slice(), auth_id.as_slice(), msg);
    sealed.unwrap()
}

/// Builds a request from its authentication id, nonce and padding.
pub fn seal_vmess_header(
    uuid: &[u8; 16],
    req: &VMessRequest,
    auth_id: &[u8; 16],
    nonce: &[u8],
    padding: &[u8],
) -> (r: Result<Vec<u8>, VMessError>)
    requires
        nonce@.len() == 8,
        padding@.len() < 16,
    ensures
        r is Ok == address::host_fits(req.host),
        r matches Ok(wire) ==> wire@ == request_bytes(
            cmd_key_of(uuid@),
            auth_id@,
            nonce@,
            plain_header(*req, padding@),
        ),
        r matches Ok(wire) ==> request_opens(
            cmd_key_of(uuid@),
            wire@,
            plain_header(*req, padding@),
        ),
        r matches Err(e) ==> e == VMessError::DomainTooLong(req.host.spec_bytes().len() as usize),
{
    let cmd_key = vmess_cmd_key(uuid);
    let mut header: Vec<u8> = Vec::new();
    header.push(1);
    text::append_bytes(&mut header, req.body_iv.as_slice());
    text::append_bytes(&mut header, req.body_key.as_slice());
    header.push(req.resp_auth);
    header.push(0x01);
    header.push((padding.len() * 16) as u8 + req.security.byte());
    header.push(0);
    header.push(0x01);
    net::push_be(&mut header, req.port as u128, 2);
    let tags = address::AddressTags { v4: 0x01, v6: 0x03, domain: 0x02 };
    match address::push_host(&mut header, tags, req.host) {
        Ok(()) => {},
        Err(n) => {
            return Err(VMessError::DomainTooLong(n));
        },
    }
    text::append_bytes(&mut header, padding);
    assert(header@ =~= header_body(*req, padding@));
    let check: u32 = fnv1a32(header.as_slice());
    net::push_be(&mut header, check as u128, 4);
    assert(header@ =~= plain_header(*req, padding@));
    proof {
        address::lemma_host_len(vmess_tags(), req.host);
        net::lemma_be_bytes_len(req.port as nat, 2);
        net::lemma_be_bytes_len(check as nat, 4);
    }
    let mut length: Vec<u8> = Vec::new();
    net::push_be(&mut length, header.len() as u128, 2);
    proof {
        net::lemma_be_bytes_len(header@.len(), 2);
        assert(length@ =~= net::be_bytes(header@.len(), 2));
    }
    let sealed_length = seal_labelled(
        &cmd_key,
        LENGTH_KEY_LABEL,
        LENGTH_NONCE_LABEL,
        auth_id,
        nonce,
        length.as_slice(),
    );
    let sealed_header = seal_labelled(
        &cmd_key,
        HEADER_KEY_LABEL,
        HEADER_NONCE_LABEL,
        auth_id,
        nonce,
        header.as_slice(),
    );
    let mut out: Vec<u8> = Vec::new();
    text::append_bytes(&mut out, auth_id.as_slice());
    text::append_bytes(&mut out, sealed_length.as_slice());
    text::append_bytes(&mut out, nonce);
    text::append_bytes(&mut out, sealed_header.as_slice());
    proof {
        assert(out@ =~= request_bytes(cmd_key@, auth_id@, nonce@, header@));
        assert(out@.take(16) =~= auth_id@);
        assert(out@.subrange(16, 34) =~= sealed_length@);
        assert(out@.subrange(34, 42) =~= nonce@);
        assert(out@.skip(42) =~= sealed_header@);
    }
    Ok(out)
}

/// A request that some time stamp, salt, nonce and padding make.
pub open spec fn is_request(
    uuid: Seq<u8>,
    req: VMessRequest,
    wire: Seq<u8>,
    timestamp: u64,
    salt: Seq<u8>,
    nonce: Seq<u8>,
    padding: Seq<u8>,
) -> bool {
    &&& salt.len() == 4
    &&& nonce.len() == 8
    &&& padding.len() < 16
    &&& wire == request_bytes(
        cmd_key_of(uuid),
        auth_id_of(cmd_key_of(uuid), timestamp, salt),
        nonce,
        plain_header(req, padding),
    )
    &&& request_opens(cmd_key_of(uuid), wire, plain_header(req, padding))
}

/// Builds a request at the present time; authentication id, nonce and padding
/// are left to chance.
pub fn build_vmess_header(
    uuid: &[u8; 16],
    body_key: &[u8; 16],
    body_iv: &[u8; 16],
    resp_auth: u8,
    security: VMessSecurity,
    host: &str,
    port: u16,
) -> (r: Result<Vec<u8>, VMessError>)
    ensures
        r is Ok == address::host_fits(host),
        r matches Ok(wire) ==> exists|t: u64, salt: Seq<u8>, nonce: Seq<u8>, padding: Seq<u8>|
            is_request(
                uuid@,
                (VMessRequest { body_key, body_iv, resp_auth, security, host, port }),
                wire@,
                t,
                salt,
                nonce,
                padding,
            ),
        r matches Err(e) ==> e == VMessError::DomainTooLong(host.spec_bytes().len() as usize),
{
    let cmd_key = vmess_cmd_key(uuid);
    let timestamp: u64 = unix_seconds();
    let auth_id = create_auth_id(&cmd_key, timestamp);
    let nonce = crypto::random_bytes(8);
    let pick = crypto::random_bytes(1);
    let padding = crypto::random_bytes((pick[0] % 16) as usize);
    let req = VMessRequest { body_key, body_iv, resp_auth, security, host, port };
    let r = seal_vmess_header(uuid, &req, &auth_id, nonce.as_slice(), padding.as_slice());
    proof {
        if r is Ok {
            let wire = r->Ok_0;
            let salt = choose|salt: Seq<u8>|
                salt.len() == 4 && auth_id@ == #[trigger] auth_id_of(cmd_key@, timestamp, salt);
            assert(is_request(uuid@, req, wire@, timestamp, salt, nonce@, padding@));
        }
    }
    r
}

// ---------------------------------------------------------------------------
// Chunk cipher
// ---------------------------------------------------------------------------

/// The cipher of one direction of the body, with its key and base nonce.
#[derive(Debug, Clone, Copy)]
pub enum VMessChunkCipher {
    Aes128Gcm { key: [u8; 16], iv: [u8; 16] },
    Chacha20Poly1305 { key32: [u8; 32], iv: [u8; 16] },
    Plain,
}

/// The nonce of a chunk: its number and ten bytes of the base nonce.
pub open spec fn nonce_of(iv: Seq<u8>, count: u16) -> Seq<u8> {
    net::be_bytes(count as nat, 2) + iv.subrange(2, 12)
}

/// The ChaCha20 key that a body key makes: its MD5, and the MD5 of that.
pub open spec fn chacha_key_of(key: Seq<u8>) -> Seq<u8> {
    crypto::md5_of(key) + crypto::md5_of(crypto::md5_of(key))
}

/// The nonce of a chunk.
pub fn make_aead_nonce(iv: &[u8; 16], count: u16) -> (r: [u8; 12])
    ensures
        r@ == nonce_of(iv@, count),
{
    let mut nonce: Vec<u8> = Vec::new();
    net::push_be(&mut nonce, count as u128, 2);
    let middle = vstd::slice::slice_subrange(iv.as_slice(), 2, 12);
    text::append_bytes(&mut nonce, middle);
    proof {
        net::lemma_be_bytes_len(count as nat, 2);
        assert(nonce@ =~= nonce_of(iv@, count));
        assert(nonce@.take(12) =~= nonce@);
    }
    bytes::array12(nonce.as_slice())
}

/// The ChaCha20 key that a body key makes.
pub fn generate_chacha_key(key: &[u8; 16]) -> (r: [u8; 32])
    ensures
        r@ == chacha_key_of(key@),
{
    let h1 = crypto::md5(key.as_slice());
    let h2 = crypto::md5(h1.as_slice());
    let mut both: Vec<u8> = Vec::new();
    text::append_bytes(&mut both, h1.as_slice());
    text::append_bytes(&mut both, h2.as_slice());
    assert(both@ =~= chacha_key_of(key@));
    assert(both@.take(32) =~= both@);
    bytes::array32(both.as_slice())
}

/// A cipher for a security type, key and base nonce.
pub open spec fn is_cipher_for(
    c: VMessChunkCipher,
    security: VMessSecurity,
    key: Seq<u8>,
    iv: Seq<u8>,
) -> bool {
    match security {
        VMessSecurity::Aes128Gcm | VMessSecurity::Auto => c matches VMessChunkCipher::Aes128Gcm {
            key: k,
            iv: v,
        } && k@ == key && v@ == iv,
        VMessSecurity::Chacha20Poly1305 => c matches VMessChunkCipher::Chacha20Poly1305 {
            key32: k,
            iv: v,
        } && k@ == chacha_key_of(key) && v@ == iv,
        VMessSecurity::Unencrypted | VMessSecurity::Zero => c is Plain,
    }
}

impl VMessChunkCipher {
    /// The bytes that sealing adds to a chunk.
    pub open spec fn tag_len(self) -> nat {
        if self is Plain {
            0
        } else {
            16
        }
    }

    /// A chunk of the given number, sealed.
    pub open spec fn sealed(self, count: u16, msg: Seq<u8>) -> Option<Seq<u8>> {
        match self {
            VMessChunkCipher::Aes128Gcm { key, iv } => crypto::gcm_sealed(
                key@,
                nonce_of(iv@, count),
                Seq::empty(),
                msg,
            ),
            VMessChunkCipher::Chacha20Poly1305 { key32, iv } => crypto::chacha_sealed(
                key32@,
                nonce_of(iv@, count),
                msg,
            ),
            VMessChunkCipher::Plain => Some(msg),
        }
    }

    /// A sealed chunk of the given number, opened.
    pub open spec fn opened(self, count: u16, sealed: Seq<u8>) -> Option<Seq<u8>> {
        match self {
            VMessChunkCipher::Aes128Gcm { key, iv } => crypto::gcm_opened(
                key@,
                nonce_of(iv@, count),
                Seq::empty(),
                sealed,
            ),
            VMessChunkCipher::Chacha20Poly1305 { key32, iv } => crypto::chacha_opened(
                key32@,
                nonce_of(iv@, count),
                sealed,
            ),
            VMessChunkCipher::Plain => Some(sealed),
        }
    }

    /// The cipher for a security type, key and base nonce.
    pub fn new(security: VMessSecurity, key: &[u8; 16], iv: &[u8; 16]) -> (r: Self)
        ensures
            is_cipher_for(r, security, key@, iv@),
    {
        match security {
            VMessSecurity::Aes128Gcm | VMessSecurity::Auto => VMessChunkCipher::Aes128Gcm {
                key: *key,
                iv: *iv,
            },
            VMessSecurity::Chacha20Poly1305 => VMessChunkCipher::Chacha20Poly1305 {
                key32: generate_chacha_key(key),
                iv: *iv,
            },
            VMessSecurity::Unencrypted | VMessSecurity::Zero => VMessChunkCipher::Plain,
        }
    }

    /// The bytes that sealing adds to a chunk.
    pub fn overhead(&self) -> (r: usize)
        ensures
            r == self.tag_len(),
    {
        match self {
            VMessChunkCipher::Aes128Gcm { .. } => 16,
            VMessChunkCipher::Chacha20Poly1305 { .. } => 16,
            VMessChunkCipher::Plain => 0,
        }
    }

    fn seal(&self, count: u16, msg: &[u8]) -> (r: Option<Vec<u8>>)
        ensures
            r is Some == self.sealed(count, msg@) is Some,
            r matches Some(c) ==> self.sealed(count, msg@) == Some(c@),
            r matches Some(c) ==> c@.len() == msg@.len() + self.tag_len(),
            r matches Some(c) ==> self.opened(count, c@) == Some(msg@),
            msg@.len() <= crypto::AEAD_MAX ==> r is Some,
    {
        match self {
            VMessChunkCipher::Aes128Gcm { key, iv } => {
                let nonce = make_aead_nonce(iv, count);
                let none: Vec<u8> = Vec::new();
                assert(none@ =~= Seq::empty());
                crypto::gcm_seal(key.as_slice(), nonce.as_slice(), none.as_slice(), msg)
            },
            VMessChunkCipher::Chacha20Poly1305 { key32, iv } => {
                let nonce = make_aead_nonce(iv, count);
                crypto::chacha_seal(key32.as_slice(), nonce.as_slice(), msg)
            },
            VMessChunkCipher::Plain => Some(vstd::slice::slice_to_vec(msg)),
        }
    }

    fn open(&self, count: u16, sealed: &[u8]) -> (r: Option<Vec<u8>>)
        ensures
            r is Some == self.opened(count, sealed@) is Some,
            r matches Some(m) ==> self.opened(count, sealed@) == Some(m@),
            r matches Some(m) ==> m@.len() + self.tag_len() == sealed@.len(),
    {
        match self {
            VMessChunkCipher::Aes128Gcm { key, iv } => {
                let nonce = make_aead_nonce(iv, count);
                let none: Vec<u8> = Vec::new();
                assert(none@ =~= Seq::empty());
                crypto::gcm_open(key.as_slice(), nonce.as_slice(), none.as_slice(), sealed)
            },
            VMessChunkCipher::Chacha20Poly1305 { key32, iv } => {
                let nonce = make_aead_nonce(iv, count);
                crypto::chacha_open(key32.as_slice(), nonce.as_slice(), sealed)
            },
            VMessChunkCipher::Plain => Some(vstd::slice::slice_to_vec(sealed)),
        }
    }

    /// Opens a sealed chunk in place; returns false, and leaves the chunk, if
    /// it does not open.
    pub fn decrypt_in_place(&self, count: u16, data: &mut Vec<u8>) -> (r: bool)
        ensures
            r == self.opened(count, old(data)@) is Some,
            r ==> self.opened(count, old(data)@) == Some(final(data)@),
            r ==> final(data)@.len() + self.tag_len() == old(data)@.len(),
            !r ==> final(data)@ == old(data)@,
    {
        match self.open(count, data.as_slice()) {
            Some(m) => {
                *data = m;
                true
            },
            None => false,
        }
    }

    /// Seals a chunk in place; returns false, and leaves the chunk, if it is
    /// too long for the cipher.
    pub fn encrypt_in_place(&self, count: u16, data: &mut Vec<u8>) -> (r: bool)
        ensures
            r == self.sealed(count, old(data)@) is Some,
            old(data)@.len() <= crypto::AEAD_MAX ==> r,
            r ==> self.sealed(count, old(data)@) == Some(final(data)@),
            r ==> final(data)@.len() == old(data)@.len() + self.tag_len(),
            r ==> self.opened(count, final(data)@) == Some(old(data)@),
            !r ==> final(data)@ == old(data)@,
    {
        match self.seal(count, data.as_slice()) {
            Some(c) => {
                *data = c;
                true
            },
            None => false,
        }
    }

    /// Seals the part of a buffer behind `start` and keeps the part before it.
    pub fn encrypt_payload_in_place(&self, count: u16, data: &mut Vec<u8>, start: usize) -> (r:
        bool)
        requires
            start <= old(data)@.len(),
        ensures
            r == self.sealed(count, old(data)@.skip(start as int)) is Some,
            old(data)@.len() <= crypto::AEAD_MAX ==> r,
            r ==> final(data)@ == old(data)@.take(start as int) + self.sealed(
                count,
                old(data)@.skip(start as int),
            )->0,
            r ==> final(data)@.len() == old(data)@.len() + self.tag_len(),
            r ==> self.opened(count, final(data)@.skip(start as int)) == Some(
                old(data)@.skip(start as int),
            ),
            !r ==> final(data)@ == old(data)@,
    {
        let n: usize = data.len();
        let tail = vstd::slice::slice_subrange(data.as_slice(), start, n);
        assert(tail@ =~= data@.skip(start as int));
        match self.seal(count, tail) {
            Some(c) => {
                data.truncate(start);
                text::append_bytes(data, c.as_slice());
                assert(data@ =~= old(data)@.take(start as int) + c@);
                assert(data@.skip(start as int) =~= c@);
                true
            },
            None => false,
        }
    }
}

// ---------------------------------------------------------------------------
// Response header
// ---------------------------------------------------------------------------

pub const RESP_LENGTH_KEY_LABEL: &'static str = "AEAD Resp Header Len Key";

pub const RESP_LENGTH_IV_LABEL: &'static str = "AEAD Resp Header Len IV";

pub const RESP_KEY_LABEL: &'static str = "AEAD Resp Header Key";

pub const RESP_IV_LABEL: &'static str = "AEAD Resp Header IV";

/// The longest response header that is accepted.
pub const MAX_RESP_HEADER: usize = 256;

/// A block of the response header, opened with the keys of two labels.
pub open spec fn resp_opened(
    key_label: Seq<u8>,
    iv_label: Seq<u8>,
    resp_key: Seq<u8>,
    resp_iv: Seq<u8>,
    block: Seq<u8>,
) -> Option<Seq<u8>> {
    crypto::gcm_opened(
        kdf_hash(seq![key_label], resp_key).take(16),
        kdf_hash(seq![iv_label], resp_iv).take(12),
        Seq::empty(),
        block,
    )
}

/// What the length block of the response header says: the length of the
/// header, or why it is refused.
pub open spec fn resp_length(block: Seq<u8>, resp_key: Seq<u8>, resp_iv: Seq<u8>) -> Result<
    usize,
    VMessError,
> {
    match resp_opened(
        RESP_LENGTH_KEY_LABEL.spec_bytes(),
        RESP_LENGTH_IV_LABEL.spec_bytes(),
        resp_key,
        resp_iv,
        block,
    ) {
        None => Err(VMessError::HeaderLengthSealed),
        Some(plain) => {
            let n = net::be_value(plain.take(2)) as usize;
            if n <= MAX_RESP_HEADER {
                Ok(n)
            } else {
                Err(VMessError::HeaderTooLarge(n))
            }
        },
    }
}

/// Whether the response header is accepted, or why it is refused: its first
/// byte (zero for an empty header) must be the expected one.
pub open spec fn resp_check(
    block: Seq<u8>,
    expected: u8,
    resp_key: Seq<u8>,
    resp_iv: Seq<u8>,
) -> Result<(), VMessError> {
    match resp_opened(
        RESP_KEY_LABEL.spec_bytes(),
        RESP_IV_LABEL.spec_bytes(),
        resp_key,
        resp_iv,
        block,
    ) {
        None => Err(VMessError::HeaderSealed),
        Some(plain) => {
            let got = if plain.len() > 0 { plain[0] } else { 0u8 };
            if got == expected {
                Ok(())
            } else {
                Err(VMessError::AuthMismatch { expected, got })
            }
        },
    }
}

fn open_resp_block(
    key_label: &str,
    iv_label: &str,
    resp_key: &[u8; 16],
    resp_iv: &[u8; 16],
    block: &[u8],
) -> (r: Option<Vec<u8>>)
    ensures
        r is Some == resp_opened(
            key_label.spec_bytes(),
            iv_label.spec_bytes(),
            resp_key@,
            resp_iv@,
            block@,
        ) is Some,
        r matches Some(m) ==> resp_opened(
            key_label.spec_bytes(),
            iv_label.spec_bytes(),
            resp_key@,
            resp_iv@,
            block@,
        ) == Some(m@),
        r matches Some(m) ==> m@.len() + 16 == block@.len(),
{
    let key_paths = [key_label.as_bytes()];
    let iv_paths = [iv_label.as_bytes()];
    assert(path_views(key_paths@) =~= seq![key_label.spec_bytes()]);
    assert(path_views(iv_paths@) =~= seq![iv_label.spec_bytes()]);
    let key_material = kdf(resp_key.as_slice(), key_paths.as_slice());
    let iv_material = kdf(resp_iv.as_slice(), iv_paths.as_slice());
    let key = bytes::array16(key_material.as_slice());
    let iv = bytes::array12(iv_material.as_slice());
    let none: Vec<u8> = Vec::new();
    assert(none@ =~= Seq::empty());
    crypto::gcm_open(key.as_slice(), iv.as_slice(), none.as_slice(), block)
}

/// Reads the length of the response header out of its length block.
pub fn decrypt_resp_header_len(enc_len: &[u8], resp_key: &[u8; 16], resp_iv: &[u8; 16]) -> (r:
    Result<usize, VMessError>)
    requires
        enc_len@.len() != 16,
        enc_len@.len() != 17,
    ensures
        r == resp_length(enc_len@, resp_key@, resp_iv@),
{
    match open_resp_block(RESP_LENGTH_KEY_LABEL, RESP_LENGTH_IV_LABEL, resp_key, resp_iv, enc_len) {
        None => Err(VMessError::HeaderLengthSealed),
        Some(plain) => {
            let head = vstd::slice::slice_subrange(plain.as_slice(), 0, 2);
            proof {
                assert(head@ =~= plain@.take(2));
                net::lemma_be_value_fits(head@);
            }
            let n: usize = net::read_be(head) as usize;
            if n <= MAX_RESP_HEADER {
                Ok(n)
            } else {
                Err(VMessError::HeaderTooLarge(n))
            }
        },
    }
}

/// Checks the authentication byte of the response header.
pub fn verify_resp_header_payload(
    enc_payload: &[u8],
    expected_auth: u8,
    resp_key: &[u8; 16],
    resp_iv: &[u8; 16],
) -> (r: Result<(), VMessError>)
    ensures
        r == resp_check(enc_payload@, expected_auth, resp_key@, resp_iv@),
{
    match open_resp_block(RESP_KEY_LABEL, RESP_IV_LABEL, resp_key, resp_iv, enc_payload) {
        None => Err(VMessError::HeaderSealed),
        Some(plain) => {
            let got: u8 = if plain.len() > 0 { plain[0] } else { 0 };
            if got == expected_auth {
                Ok(())
            } else {
                Err(VMessError::AuthMismatch { expected: expected_auth, got })
            }
        },
    }
}

// ---------------------------------------------------------------------------
// Stream: reading
// ---------------------------------------------------------------------------

/// What the read side is assembling, or delivering.
#[derive(Debug, Clone, Copy, PartialEq, Eq, Structural)]
pub enum ReadPhase {
    /// The length block of the response header.
    HeaderLength,
    /// The response header.
    HeaderPayload,
    /// The length of a chunk.
    ChunkLength,
    /// A sealed chunk.
    ChunkPayload,
    /// Opened bytes that wait for the reader.
    Plain,
}

/// The fixed values of the read side.
pub struct ReadKeys {
    pub cipher: VMessChunkCipher,
    pub key: Seq<u8>,
    pub iv: Seq<u8>,
    pub auth: u8,
}

/// The changing values of the read side.
#[verifier::ext_equal]
pub struct ReadModel {
    pub phase: ReadPhase,
    /// The block as far as it has arrived; opened bytes in phase `Plain`.
    pub buf: Seq<u8>,
    /// How long the block will be.
    pub want: nat,
    /// How many opened bytes have been delivered.
    pub taken: nat,
    /// The number of the next chunk.
    pub count: u16,
    /// A refusal of the response header that was not reported yet.
    pub fatal: Option<VMessError>,
    /// Nothing more will be delivered.
    pub eof: bool,
}

/// The read side before the length of a chunk.
pub open spec fn next_chunk(m: ReadModel) -> ReadModel {
    ReadModel { phase: ReadPhase::ChunkLength, buf: seq![], want: 2, taken: 0, ..m }
}

/// The read side once a block is complete.
pub open spec fn completed(k: ReadKeys, m: ReadModel) -> ReadModel {
    match m.phase {
        ReadPhase::HeaderLength => match resp_length(m.buf, k.key, k.iv) {
            Ok(n) => ReadModel {
                phase: ReadPhase::HeaderPayload,
                buf: seq![],
                want: (n + 16) as nat,
                ..m
            },
            Err(e) => ReadModel { fatal: Some(e), ..m },
        },
        ReadPhase::HeaderPayload => match resp_check(m.buf, k.auth, k.key, k.iv) {
            Ok(_) => next_chunk(m),
            Err(e) => ReadModel { fatal: Some(e), ..m },
        },
        ReadPhase::ChunkLength => if net::be_value(m.buf) == 0 {
            ReadModel { eof: true, ..m }
        } else {
            ReadModel {
                phase: ReadPhase::ChunkPayload,
                buf: seq![],
                want: net::be_value(m.buf),
                ..m
            }
        },
        ReadPhase::ChunkPayload => match k.cipher.opened(m.count, m.buf) {
            None => ReadModel { eof: true, ..m },
            Some(plain) => {
                let n = ReadModel { count: m.count.wrapping_add(1), ..m };
                if plain.len() == 0 {
                    next_chunk(n)
                } else {
                    ReadModel {
                        phase: ReadPhase::Plain,
                        buf: plain,
                        want: plain.len(),
                        taken: 0,
                        ..n
                    }
                }
            },
        },
        ReadPhase::Plain => m,
    }
}

/// The read side once more bytes of the block have arrived.
pub open spec fn absorbed(k: ReadKeys, m: ReadModel, data: Seq<u8>) -> ReadModel {
    let n = ReadModel { buf: m.buf + data, ..m };
    if n.buf.len() < n.want {
        n
    } else {
        completed(k, n)
    }
}

/// The read side once the transport gave out, with the error to report if
/// that happened inside the response header. Inside a chunk, and between two,
/// it is a silent end.
pub open spec fn cut_off(m: ReadModel, e: VMessError) -> ReadModel {
    if m.phase == ReadPhase::HeaderLength || m.phase == ReadPhase::HeaderPayload {
        ReadModel { fatal: Some(e), ..m }
    } else {
        ReadModel { eof: true, ..m }
    }
}

/// The read side still takes bytes from the transport.
pub open spec fn is_filling(m: ReadModel) -> bool {
    m.phase != ReadPhase::Plain && !m.eof && m.fatal is None
}

/// What a reader's request comes to.
#[derive(Debug)]
pub enum ReadStep {
    /// These bytes, none at the end of the stream.
    Deliver(Vec<u8>),
    /// At most this many bytes are needed from the transport first.
    Fill(usize),
    /// The response header was refused.
    Fail(VMessError),
}

/// What a writer's request comes to.
#[derive(Debug)]
pub enum WriteStep {
    /// This many bytes are written.
    Done(usize),
    /// The pending bytes must reach the transport first.
    Drain,
    /// The write is refused.
    Fail(VMessError),
}

/// The most bytes that a chunk has on the wire behind its length.
pub const MAX_CHUNK: usize = 16384;

/// The changing values of the write side.
#[verifier::ext_equal]
pub struct WriteModel {
    /// Bytes that wait for the transport.
    pub pending: Seq<u8>,
    /// How many of the writer's bytes the pending chunk carries.
    pub in_flight: Option<usize>,
    /// The number of the next chunk.
    pub count: u16,
    pub closed: bool,
}

/// A VMess stream between a user and a transport.
///
/// The transport itself is not part of it: `poll_read` and `poll_write` say
/// what is needed from the transport, and the `on_` functions take what the
/// transport did.
pub struct VMessStream {
    pub read_cipher: VMessChunkCipher,
    pub phase: ReadPhase,
    pub buf: Vec<u8>,
    pub want: usize,
    pub plain_pos: usize,
    pub resp_key: [u8; 16],
    pub resp_iv: [u8; 16],
    pub resp_auth: u8,
    pub read_count: u16,
    pub fatal: Option<VMessError>,
    pub read_eof: bool,
    pub write_cipher: VMessChunkCipher,
    pub max_chunk: usize,
    pub out: Vec<u8>,
    pub out_pos: usize,
    pub write_in_flight: Option<usize>,
    pub write_count: u16,
    pub write_closed: bool,
}

/// A chunk on the wire: the length of what follows, and the sealed bytes.
pub open spec fn chunk_bytes(sealed: Seq<u8>) -> Seq<u8> {
    net::be_bytes(sealed.len(), 2) + sealed
}

impl VMessStream {
    /// The fixed values of the read side.
    pub open spec fn keys(self) -> ReadKeys {
        ReadKeys {
            cipher: self.read_cipher,
            key: self.resp_key@,
            iv: self.resp_iv@,
            auth: self.resp_auth,
        }
    }

    /// The changing values of the read side.
    pub open spec fn reading(self) -> ReadModel {
        ReadModel {
            phase: self.phase,
            buf: self.buf@,
            want: self.want as nat,
            taken: self.plain_pos as nat,
            count: self.read_count,
            fatal: self.fatal,
            eof: self.read_eof,
        }
    }

    /// The changing values of the write side.
    pub open spec fn writing(self) -> WriteModel {
        WriteModel {
            pending: self.out@.skip(self.out_pos as int),
            in_flight: self.write_in_flight,
            count: self.write_count,
            closed: self.write_closed,
        }
    }

    /// The same keys and ciphers.
    pub open spec fn same_session(self, other: Self) -> bool {
        &&& self.keys() == other.keys()
        &&& self.write_cipher == other.write_cipher
        &&& self.max_chunk == other.max_chunk
    }

    /// The values fit together.
    pub open spec fn wf(self) -> bool {
        &&& self.max_chunk + self.write_cipher.tag_len() == MAX_CHUNK
        &&& self.out_pos <= self.out@.len()
        &&& self.phase == ReadPhase::Plain ==> self.plain_pos < self.buf@.len()
        &&& is_filling(self.reading()) ==> self.buf@.len() < self.want && (match self.phase {
            ReadPhase::HeaderLength => self.want == 18,
            ReadPhase::HeaderPayload => self.want <= MAX_RESP_HEADER + 16,
            ReadPhase::ChunkLength => self.want == 2,
            _ => self.want <= 0xffff,
        })
    }

    /// A stream at its start, under the given keys.
    pub fn new(
        req_key: &[u8; 16],
        req_iv: &[u8; 16],
        resp_key: &[u8; 16],
        resp_iv: &[u8; 16],
        resp_auth: u8,
        security: VMessSecurity,
    ) -> (r: Self)
        ensures
            r.wf(),
            is_cipher_for(r.write_cipher, security, req_key@, req_iv@),
            is_cipher_for(r.read_cipher, security, resp_key@, resp_iv@),
            r.keys().key == resp_key@,
            r.keys().iv == resp_iv@,
            r.keys().auth == resp_auth,
            r.reading() == (ReadModel {
                phase: ReadPhase::HeaderLength,
                buf: seq![],
                want: 18,
                taken: 0,
                count: 0,
                fatal: None,
                eof: false,
            }),
            r.writing() == (WriteModel {
                pending: seq![],
                in_flight: None,
                count: 0,
                closed: false,
            }),
    {
        let write_cipher = VMessChunkCipher::new(security, req_key, req_iv);
        let max_chunk: usize = MAX_CHUNK - write_cipher.overhead();
        VMessStream {
            read_cipher: VMessChunkCipher::new(security, resp_key, resp_iv),
            phase: ReadPhase::HeaderLength,
            buf: Vec::new(),
            want: 18,
            plain_pos: 0,
            resp_key: *resp_key,
            resp_iv: *resp_iv,
            resp_auth,
            read_count: 0,
            fatal: None,
            read_eof: false,
            write_cipher,
            max_chunk,
            out: Vec::new(),
            out_pos: 0,
            write_in_flight: None,
            write_count: 0,
            write_closed: false,
        }
    }

    fn begin_chunk(&mut self)
        ensures
            final(self).reading() == next_chunk(old(self).reading()),
            final(self).writing() == old(self).writing(),
            final(self).same_session(*old(self)),
            final(self).out == old(self).out,
            final(self).out_pos == old(self).out_pos,
    {
        self.phase = ReadPhase::ChunkLength;
        self.buf = Vec::new();
        self.want = 2;
        self.plain_pos = 0;
    }

    /// A reader asks for at most `room` bytes.
    pub fn poll_read(&mut self, room: usize) -> (r: ReadStep)
        requires
            old(self).wf(),
        ensures
            final(self).wf(),
            final(self).same_session(*old(self)),
            final(self).writing() == old(self).writing(),
            polled(old(self).reading(), room, r, final(self).reading()),
    {
        if room == 0 || self.read_eof {
            return ReadStep::Deliver(Vec::new());
        }
        if let Some(e) = self.fatal.take() {
            self.read_eof = true;
            return ReadStep::Fail(e);
        }
        match self.phase {
            ReadPhase::Plain => {
                let ghost m = self.reading();
                let rest: usize = self.buf.len() - self.plain_pos;
                let n: usize = if room < rest { room } else { rest };
                let part = vstd::slice::slice_subrange(
                    self.buf.as_slice(),
                    self.plain_pos,
                    self.plain_pos + n,
                );
                let d = vstd::slice::slice_to_vec(part);
                assert(d@ =~= m.buf.skip(m.taken as int).take(n as int));
                self.plain_pos = self.plain_pos + n;
                if self.plain_pos == self.buf.len() {
                    self.begin_chunk();
                }
                ReadStep::Deliver(d)
            },
            _ => ReadStep::Fill(self.want - self.buf.len()),
        }
    }

    /// The transport delivered bytes, at most as many as were asked for.
    pub fn on_data(&mut self, data: &[u8])
        requires
            old(self).wf(),
            is_filling(old(self).reading()),
            old(self).buf@.len() + data@.len() <= old(self).want,
        ensures
            final(self).wf(),
            final(self).same_session(*old(self)),
            final(self).writing() == old(self).writing(),
            final(self).reading() == absorbed(old(self).keys(), old(self).reading(), data@),
    {
        text::append_bytes(&mut self.buf, data);
        if self.buf.len() < self.want {
            return;
        }
        match self.phase {
            ReadPhase::HeaderLength => {
                match decrypt_resp_header_len(self.buf.as_slice(), &self.resp_key, &self.resp_iv) {
                    Ok(n) => {
                        self.phase = ReadPhase::HeaderPayload;
                        self.buf = Vec::new();
                        self.want = n + 16;
                    },
                    Err(e) => {
                        self.fatal = Some(e);
                    },
                }
            },
            ReadPhase::HeaderPayload => {
                match verify_resp_header_payload(
                    self.buf.as_slice(),
                    self.resp_auth,
                    &self.resp_key,
                    &self.resp_iv,
                ) {
                    Ok(()) => {
                        self.begin_chunk();
                    },
                    Err(e) => {
                        self.fatal = Some(e);
                    },
                }
            },
            ReadPhase::ChunkLength => {
                let n: u128 = net::read_be(self.buf.as_slice());
                proof {
                    net::lemma_be_value_fits(self.buf@);
                }
                if n == 0 {
                    self.read_eof = true;
                } else {
                    self.phase = ReadPhase::ChunkPayload;
                    self.buf = Vec::new();
                    self.want = n as usize;
                }
            },
            ReadPhase::ChunkPayload => {
                if self.read_cipher.decrypt_in_place(self.read_count, &mut self.buf) {
                    self.read_count = self.read_count.wrapping_add(1);
                    if self.buf.len() == 0 {
                        self.begin_chunk();
                    } else {
                        self.phase = ReadPhase::Plain;
                        self.want = self.buf.len();
                        self.plain_pos = 0;
                    }
                } else {
                    self.read_eof = true;
                }
            },
            ReadPhase::Plain => {},
        }
    }

    /// The transport reached its end.
    pub fn on_eof(&mut self)
        requires
            old(self).wf(),
            is_filling(old(self).reading()),
        ensures
            final(self).wf(),
            final(self).same_session(*old(self)),
            final(self).writing() == old(self).writing(),
            final(self).reading() == cut_off(old(self).reading(), VMessError::HeaderCutShort),
    {
        match self.phase {
            ReadPhase::HeaderLength | ReadPhase::HeaderPayload => {
                self.fatal = Some(VMessError::HeaderCutShort);
            },
            _ => {
                self.read_eof = true;
            },
        }
    }

    /// The transport failed to read.
    pub fn on_read_error(&mut self, message: String)
        requires
            old(self).wf(),
            is_filling(old(self).reading()),
        ensures
            final(self).wf(),
            final(self).same_session(*old(self)),
            final(self).writing() == old(self).writing(),
            final(self).reading() == cut_off(
                old(self).reading(),
                VMessError::HeaderTransport(message),
            ),
    {
        match self.phase {
            ReadPhase::HeaderLength | ReadPhase::HeaderPayload => {
                self.fatal = Some(VMessError::HeaderTransport(message));
            },
            _ => {
                self.read_eof = true;
            },
        }
    }
}

// ---------------------------------------------------------------------------
// Stream: writing
// ---------------------------------------------------------------------------

/// How many bytes of a write go into the next chunk.
pub open spec fn chunk_share(len: nat, max_chunk: nat) -> nat {
    if len < max_chunk {
        len
    } else {
        max_chunk
    }
}

impl VMessStream {
    /// The bytes that wait for the transport.
    pub fn pending(&self) -> (r: &[u8])
        requires
            self.wf(),
        ensures
            r@ == self.writing().pending,
    {
        let r = vstd::slice::slice_subrange(self.out.as_slice(), self.out_pos, self.out.len());
        assert(r@ =~= self.out@.skip(self.out_pos as int));
        r
    }

    /// A writer offers bytes. A chunk that is still on its way goes first;
    /// otherwise at most one chunk is taken.
    pub fn poll_write(&mut self, data: &[u8]) -> (r: WriteStep)
        requires
            old(self).wf(),
        ensures
            final(self).wf(),
            final(self).same_session(*old(self)),
            final(self).reading() == old(self).reading(),
            offered(*old(self), data@, r, final(self).writing()),
    {
        if self.write_closed {
            return WriteStep::Fail(VMessError::Closed);
        }
        if self.write_in_flight.is_some() || self.out_pos < self.out.len() {
            return WriteStep::Drain;
        }
        if data.len() == 0 {
            return WriteStep::Done(0);
        }
        let n: usize = if data.len() < self.max_chunk { data.len() } else { self.max_chunk };
        let part = vstd::slice::slice_subrange(data, 0, n);
        assert(part@ =~= data@.take(n as int));
        let mut out: Vec<u8> = Vec::new();
        out.push(0);
        out.push(0);
        text::append_bytes(&mut out, part);
        assert(out@.skip(2) =~= part@);
        let done = self.write_cipher.encrypt_payload_in_place(self.write_count, &mut out, 2);
        assert(done);
        let ghost sealed = self.write_cipher.sealed(self.write_count, part@)->0;
        assert(out@.skip(2) =~= sealed);
        let mut prefix: Vec<u8> = Vec::new();
        assert(out.len() == out@.len());
        net::push_be(&mut prefix, (out.len() - 2) as u128, 2);
        assert(prefix@ =~= net::be_bytes(sealed.len(), 2));
        proof {
            reveal_with_fuel(net::be_bytes, 3);
        }
        out.set(0, prefix[0]);
        out.set(1, prefix[1]);
        assert(out@ =~= chunk_bytes(sealed));
        self.out = out;
        self.out_pos = 0;
        assert(self.out@.skip(0) =~= self.out@);
        self.write_in_flight = Some(n);
        WriteStep::Drain
    }

    /// The transport took `n` of the pending bytes. Taking none is an error
    /// that drops them.
    pub fn on_written(&mut self, n: usize) -> (r: Result<(), VMessError>)
        requires
            old(self).wf(),
            n <= old(self).writing().pending.len(),
        ensures
            final(self).wf(),
            final(self).same_session(*old(self)),
            final(self).reading() == old(self).reading(),
            sent(old(self).writing(), n, r, final(self).writing()),
    {
        if n == 0 {
            self.out = Vec::new();
            self.out_pos = 0;
            assert(self.out@.skip(0) =~= seq![]);
            return Err(VMessError::WriteZero);
        }
        assert(self.out.len() == self.out@.len());
        self.out_pos = self.out_pos + n;
        assert(self.out@.skip(self.out_pos as int) =~= old(self).writing().pending.skip(n as int));
        Ok(())
    }

    /// The transport failed to write: the pending bytes are dropped. A write
    /// that was waiting for them is given up with them, a flush or a shutdown
    /// leaves it.
    pub fn on_write_error(&mut self, writing: bool)
        requires
            old(self).wf(),
        ensures
            final(self).wf(),
            final(self).same_session(*old(self)),
            final(self).reading() == old(self).reading(),
            final(self).writing() == (WriteModel {
                pending: seq![],
                in_flight: if writing {
                    None
                } else {
                    old(self).writing().in_flight
                },
                ..old(self).writing()
            }),
    {
        self.out = Vec::new();
        self.out_pos = 0;
        assert(self.out@.skip(0) =~= seq![]);
        if writing {
            self.write_in_flight = None;
        }
    }

    /// The pending bytes reached the transport: the count to report to the
    /// writer whose chunk they were, if any.
    pub fn finish_write(&mut self) -> (r: Option<usize>)
        requires
            old(self).wf(),
            old(self).writing().pending.len() == 0,
        ensures
            final(self).wf(),
            final(self).same_session(*old(self)),
            final(self).reading() == old(self).reading(),
            finished(old(self).writing(), r, final(self).writing()),
    {
        match self.write_in_flight.take() {
            Some(n) => {
                self.write_count = self.write_count.wrapping_add(1);
                Some(n)
            },
            None => None,
        }
    }

    /// The transport was shut down.
    pub fn on_shutdown(&mut self)
        requires
            old(self).wf(),
        ensures
            final(self).wf(),
            final(self).same_session(*old(self)),
            final(self).reading() == old(self).reading(),
            final(self).writing() == (WriteModel { closed: true, ..old(self).writing() }),
    {
        self.write_closed = true;
    }
}

// ---------------------------------------------------------------------------
// Laws
// ---------------------------------------------------------------------------

/// How the bytes of a block are split on arrival does not matter.
pub proof fn law_arrival_in_pieces(k: ReadKeys, m: ReadModel, a: Seq<u8>, b: Seq<u8>)
    requires
        is_filling(m),
        m.buf.len() + a.len() < m.want,
    ensures
        absorbed(k, absorbed(k, m, a), b) == absorbed(k, m, a + b),
{
    assert((m.buf + a) + b =~= m.buf + (a + b));
}

/// A chunk that one side writes is what the other side delivers: a reader
/// with the same cipher and chunk number that is fed the chunk's length and
/// then its sealed bytes holds the writer's bytes, and expects the next chunk
/// number.
pub proof fn law_chunk_round_trip(k: ReadKeys, m: ReadModel, sealed: Seq<u8>, plain: Seq<u8>)
    requires
        m == next_chunk(m),
        is_filling(m),
        0 < sealed.len() <= 0xffff,
        k.cipher.opened(m.count, sealed) == Some(plain),
        plain.len() > 0,
    ensures
        ({
            let wire = chunk_bytes(sealed);
            let n = absorbed(k, absorbed(k, m, wire.take(2)), wire.skip(2));
            &&& n.phase == ReadPhase::Plain
            &&& n.buf == plain
            &&& n.taken == 0
            &&& n.count == m.count.wrapping_add(1)
            &&& !n.eof
            &&& n.fatal is None
        }),
{
    let wire = chunk_bytes(sealed);
    net::lemma_be_bytes_len(sealed.len(), 2);
    net::lemma_powers_of_256();
    net::lemma_be_round_trip(sealed.len(), 2);
    assert(wire.take(2) =~= net::be_bytes(sealed.len(), 2));
    assert(wire.skip(2) =~= sealed);
    assert(m.buf + wire.take(2) =~= wire.take(2));
    let l = absorbed(k, m, wire.take(2));
    assert(l.phase == ReadPhase::ChunkPayload);
    assert(l.buf + sealed =~= sealed);
}

/// A read side that is fed with bytes and read out whenever it has opened
/// some: the read side afterwards, and all that was delivered. Where it takes
/// no more bytes the rest is left.
pub open spec fn read_all(k: ReadKeys, m: ReadModel, wire: Seq<u8>) -> (ReadModel, Seq<u8>)
    decreases wire.len(), (if m.phase == ReadPhase::Plain { 1nat } else { 0nat }),
{
    if m.eof || m.fatal is Some {
        (m, seq![])
    } else if m.phase == ReadPhase::Plain {
        let (after, more) = read_all(k, next_chunk(m), wire);
        (after, m.buf.skip(m.taken as int) + more)
    } else if wire.len() == 0 || m.buf.len() >= m.want {
        (m, seq![])
    } else {
        let n = if m.want - m.buf.len() < wire.len() {
            m.want - m.buf.len()
        } else {
            wire.len() as int
        };
        read_all(k, absorbed(k, m, wire.take(n)), wire.skip(n))
    }
}

/// A split inside the bytes that are missing from a block.
proof fn lemma_split_inside(k: ReadKeys, m: ReadModel, a: Seq<u8>, b: Seq<u8>)
    requires
        is_filling(m),
        0 < a.len(),
        m.buf.len() + a.len() < m.want,
    ensures
        read_all(k, m, a) == (absorbed(k, m, a), Seq::<u8>::empty()),
        read_all(k, m, a + b) == read_all(k, absorbed(k, m, a), b),
{
    let at = absorbed(k, m, a);
    assert(at == ReadModel { buf: m.buf + a, ..m });
    assert(a.take(a.len() as int) =~= a);
    assert(a.skip(a.len() as int) =~= seq![]);
    assert(read_all(k, at, seq![]) == (at, Seq::<u8>::empty()));
    assert(read_all(k, m, a) == read_all(k, at, seq![]));
    if b.len() == 0 {
        assert(a + b =~= a);
        assert(b =~= seq![]);
    } else {
        let rest = m.want - at.buf.len();
        let n = if rest < b.len() { rest } else { b.len() as int };
        assert((a + b).take(a.len() + n) =~= a + b.take(n));
        assert((a + b).skip(a.len() + n) =~= b.skip(n));
        law_arrival_in_pieces(k, m, a, b.take(n));
        assert(read_all(k, m, a + b) == read_all(k, absorbed(k, m, a + b.take(n)), b.skip(n)));
    }
}

/// How a stream of bytes is split on arrival does not matter, wherever it is
/// split.
pub proof fn law_splits_do_not_matter(k: ReadKeys, m: ReadModel, a: Seq<u8>, b: Seq<u8>)
    ensures
        ({
            let first = read_all(k, m, a);
            let second = read_all(k, first.0, b);
            read_all(k, m, a + b) == (second.0, first.1 + second.1)
        }),
    decreases a.len(), (if m.phase == ReadPhase::Plain { 1nat } else { 0nat }),
{
    let first = read_all(k, m, a);
    let second = read_all(k, first.0, b);
    assert(seq![] + second.1 =~= second.1);
    if m.eof || m.fatal is Some {
    } else if m.phase == ReadPhase::Plain {
        law_splits_do_not_matter(k, next_chunk(m), a, b);
        let part = read_all(k, next_chunk(m), a);
        let ready = m.buf.skip(m.taken as int);
        assert((ready + part.1) + second.1 =~= ready + (part.1 + second.1));
    } else if a.len() == 0 {
        assert(a + b =~= b);
    } else if m.buf.len() >= m.want {
    } else if m.buf.len() + a.len() < m.want {
        lemma_split_inside(k, m, a, b);
    } else {
        let n = m.want - m.buf.len();
        assert((a + b).take(n) =~= a.take(n));
        assert((a + b).skip(n) =~= a.skip(n) + b);
        law_splits_do_not_matter(k, absorbed(k, m, a.take(n)), a.skip(n), b);
    }
}

/// Chunks on the wire, one behind another, each with the bytes it carries.
pub open spec fn chunks_bytes(chunks: Seq<(Seq<u8>, Seq<u8>)>) -> Seq<u8>
    decreases chunks.len(),
{
    if chunks.len() == 0 {
        seq![]
    } else {
        chunk_bytes(chunks[0].0) + chunks_bytes(chunks.drop_first())
    }
}

/// The bytes that chunks carry, one behind another.
pub open spec fn chunks_plain(chunks: Seq<(Seq<u8>, Seq<u8>)>) -> Seq<u8>
    decreases chunks.len(),
{
    if chunks.len() == 0 {
        seq![]
    } else {
        chunks[0].1 + chunks_plain(chunks.drop_first())
    }
}

/// The number of the chunk that stands `n` places behind the given one. The
/// numbers start again after the last.
pub open spec fn later_count(count: u16, n: nat) -> u16
    decreases n,
{
    if n == 0 {
        count
    } else {
        later_count(count.wrapping_add(1), (n - 1) as nat)
    }
}

/// Each chunk opens under its number to the bytes it carries.
pub open spec fn chunks_open(cipher: VMessChunkCipher, count: u16, chunks: Seq<(Seq<u8>, Seq<u8>)>) -> bool
    decreases chunks.len(),
{
    chunks.len() > 0 ==> {
        &&& 0 < chunks[0].0.len() <= 0xffff
        &&& cipher.opened(count, chunks[0].0) == Some(chunks[0].1)
        &&& chunks_open(cipher, count.wrapping_add(1), chunks.drop_first())
    }
}

/// What one side writes in any number of chunks is what the other side
/// delivers, byte for byte and in order, and nothing of it stays behind.
pub proof fn law_stream_round_trip(k: ReadKeys, m: ReadModel, chunks: Seq<(Seq<u8>, Seq<u8>)>)
    requires
        m == next_chunk(m),
        is_filling(m),
        chunks_open(k.cipher, m.count, chunks),
    ensures
        read_all(k, m, chunks_bytes(chunks)) == (
            ReadModel { count: later_count(m.count, chunks.len()), ..m },
            chunks_plain(chunks),
        ),
    decreases chunks.len(),
{
    if chunks.len() > 0 {
        let (sealed, plain) = chunks[0];
        let rest = chunks.drop_first();
        let wire = chunk_bytes(sealed);
        let n = ReadModel { count: m.count.wrapping_add(1), ..m };
        law_stream_round_trip(k, n, rest);
        law_splits_do_not_matter(k, m, wire, chunks_bytes(rest));
        lemma_chunk_is_read(k, m, sealed, plain);
    }
}

proof fn lemma_chunk_is_read(k: ReadKeys, m: ReadModel, sealed: Seq<u8>, plain: Seq<u8>)
    requires
        m == next_chunk(m),
        is_filling(m),
        0 < sealed.len() <= 0xffff,
        k.cipher.opened(m.count, sealed) == Some(plain),
    ensures
        read_all(k, m, chunk_bytes(sealed)) == (
            ReadModel { count: m.count.wrapping_add(1), ..m },
            plain,
        ),
{
    let wire = chunk_bytes(sealed);
    net::lemma_be_bytes_len(sealed.len(), 2);
    net::lemma_powers_of_256();
    net::lemma_be_round_trip(sealed.len(), 2);
    assert(wire.take(2) =~= net::be_bytes(sealed.len(), 2));
    assert(wire.skip(2) =~= sealed);
    assert(m.buf + wire.take(2) =~= wire.take(2));
    let l = absorbed(k, m, wire.take(2));
    assert(l.phase == ReadPhase::ChunkPayload);
    assert(l.want == sealed.len());
    assert(l.buf + sealed =~= sealed);
    assert(sealed.take(sealed.len() as int) =~= sealed);
    assert(sealed.skip(sealed.len() as int) =~= seq![]);
    let p = absorbed(k, l, sealed);
    assert(read_all(k, m, wire) == read_all(k, l, sealed));
    assert(read_all(k, l, sealed) == read_all(k, p, seq![]));
    let n = ReadModel { count: m.count.wrapping_add(1), ..m };
    assert(read_all(k, n, seq![]) == (n, Seq::<u8>::empty()));
    if plain.len() == 0 {
        assert(p =~= n);
        assert(plain =~= seq![]);
    } else {
        assert(p.phase == ReadPhase::Plain);
        assert(next_chunk(p) =~= n);
        assert(p.buf.skip(0) =~= plain);
        assert(plain + seq![] =~= plain);
    }
}

/// What the reader and the transport bring to each step of a reading: the
/// room of the reader, and how many bytes the transport has at hand. Of both
/// there is always one at least.
pub struct Script {
    pub room: spec_fn(int) -> nat,
    pub at_hand: spec_fn(int) -> nat,
}

/// The smaller of two numbers, of which the first counts as one where it is
/// zero.
pub open spec fn at_most(n: nat, limit: nat) -> nat {
    let some = if n == 0 {
        1
    } else {
        n
    };
    if some < limit {
        some
    } else {
        limit
    }
}

/// A whole reading: what was delivered, and the error in which it ended.
#[verifier::ext_equal]
pub struct Reading {
    pub got: Seq<u8>,
    pub failed: Option<VMessError>,
}

/// What is read from a stream, step by step, until it ends, where the
/// transport has the bytes of `wire`, then its end.
pub open spec fn reading(k: ReadKeys, m: ReadModel, wire: Seq<u8>, s: Script, t: int) -> Reading
    decreases wire.len(), (if m.phase == ReadPhase::Plain {
        m.buf.len() - m.taken
    } else {
        0
    }),
{
    let rest = m.buf.skip(m.taken as int);
    if m.eof || m.fatal is Some {
        Reading { got: seq![], failed: m.fatal }
    } else if m.phase == ReadPhase::Plain {
        if m.taken >= m.buf.len() {
            Reading { got: seq![], failed: None }
        } else {
            let n = at_most((s.room)(t), rest.len()) as int;
            let next = if n == rest.len() {
                next_chunk(m)
            } else {
                ReadModel { taken: (m.taken + n) as nat, ..m }
            };
            let more = reading(k, next, wire, s, t + 1);
            Reading { got: rest.take(n) + more.got, ..more }
        }
    } else if wire.len() > 0 && m.buf.len() < m.want {
        let missing = (m.want - m.buf.len()) as nat;
        let n = at_most((s.at_hand)(t), if missing < wire.len() {
            missing
        } else {
            wire.len()
        }) as int;
        reading(k, absorbed(k, m, wire.take(n)), wire.skip(n), s, t + 1)
    } else {
        Reading { got: seq![], failed: cut_off(m, VMessError::HeaderCutShort).fatal }
    }
}

/// The read side lacks bytes of its block, or has bytes for the reader, or is
/// at its end.
pub open spec fn is_sound(m: ReadModel) -> bool {
    m.eof || m.fatal is Some || (if m.phase == ReadPhase::Plain {
        m.taken < m.buf.len()
    } else {
        m.buf.len() < m.want
    })
}

/// The error in which a read side ends that gets nothing more.
pub open spec fn end_error(m: ReadModel) -> Option<VMessError> {
    if m.eof || m.fatal is Some {
        m.fatal
    } else {
        cut_off(m, VMessError::HeaderCutShort).fatal
    }
}

proof fn lemma_absorbed_is_sound(k: ReadKeys, m: ReadModel, x: Seq<u8>)
    requires
        is_filling(m),
        m.buf.len() + x.len() <= m.want,
    ensures
        is_sound(absorbed(k, m, x)),
{
}

/// Neither the room of the reader nor what the transport has at hand changes
/// what is read.
pub proof fn law_rooms_and_reads_do_not_matter(
    k: ReadKeys,
    m: ReadModel,
    wire: Seq<u8>,
    s: Script,
    t: int,
)
    requires
        is_sound(m),
    ensures
        reading(k, m, wire, s, t) == (Reading {
            got: read_all(k, m, wire).1,
            failed: end_error(read_all(k, m, wire).0),
        }),
    decreases wire.len(), (if m.phase == ReadPhase::Plain {
        m.buf.len() - m.taken
    } else {
        0
    }),
{
    let rest = m.buf.skip(m.taken as int);
    if m.eof || m.fatal is Some {
    } else if m.phase == ReadPhase::Plain {
        let n = at_most((s.room)(t), rest.len()) as int;
        if n == rest.len() {
            law_rooms_and_reads_do_not_matter(k, next_chunk(m), wire, s, t + 1);
            assert(rest.take(n) =~= rest);
        } else {
            let next = ReadModel { taken: (m.taken + n) as nat, ..m };
            law_rooms_and_reads_do_not_matter(k, next, wire, s, t + 1);
            assert(next_chunk(next) == next_chunk(m));
            let more = read_all(k, next_chunk(m), wire).1;
            assert(rest.take(n) + (next.buf.skip(next.taken as int) + more) =~= rest + more);
        }
    } else if wire.len() > 0 {
        let missing = (m.want - m.buf.len()) as nat;
        let n = at_most((s.at_hand)(t), if missing < wire.len() {
            missing
        } else {
            wire.len()
        }) as int;
        let x = wire.take(n);
        let left = wire.skip(n);
        assert(x + left =~= wire);
        lemma_absorbed_is_sound(k, m, x);
        law_rooms_and_reads_do_not_matter(k, absorbed(k, m, x), left, s, t + 1);
        if n < missing {
            lemma_split_inside(k, m, x, left);
        }
        assert(read_all(k, m, wire) == read_all(k, absorbed(k, m, x), left));
    }
}

/// A sealed response header that the read side accepts.
pub open spec fn is_resp_header(k: ReadKeys, head: Seq<u8>) -> bool {
    &&& head.len() >= 18
    &&& resp_length(head.take(18), k.key, k.iv) matches Ok(n) && head.len() == 18 + n + 16
    &&& resp_check(head.skip(18), k.auth, k.key, k.iv) is Ok
}

/// How the chunks of an answer end: with the mark of the end, with a chunk
/// that does not open, or where the transport ends, which may be inside a
/// chunk. Behind the first two anything may follow.
pub open spec fn is_end(k: ReadKeys, count: u16, end: Seq<u8>) -> bool {
    ||| end.len() < 2
    ||| {
        let n = net::be_value(end.take(2));
        ||| n == 0
        ||| end.len() < 2 + n
        ||| k.cipher.opened(count, end.subrange(2, 2 + n as int)) is None
    }
}

proof fn lemma_header_is_read(k: ReadKeys, m: ReadModel, head: Seq<u8>)
    requires
        m.phase == ReadPhase::HeaderLength,
        m.buf.len() == 0,
        m.want == 18,
        is_filling(m),
        is_resp_header(k, head),
    ensures
        read_all(k, m, head) == (next_chunk(m), Seq::<u8>::empty()),
{
    let first = head.take(18);
    let second = head.skip(18);
    let a = absorbed(k, m, first);
    assert(m.buf + first =~= first);
    assert(a.phase == ReadPhase::HeaderPayload);
    assert(read_all(k, m, head) == read_all(k, a, second));
    assert(second.take(second.len() as int) =~= second);
    assert(second.skip(second.len() as int) =~= seq![]);
    assert(a.buf + second =~= second);
    let b = absorbed(k, a, second);
    assert(b =~= next_chunk(m));
    assert(read_all(k, a, second) == read_all(k, b, seq![]));
}

proof fn lemma_end_is_read(k: ReadKeys, m: ReadModel, end: Seq<u8>)
    requires
        m == next_chunk(m),
        is_filling(m),
        is_end(k, m.count, end),
    ensures
        read_all(k, m, end).1 == Seq::<u8>::empty(),
        end_error(read_all(k, m, end).0) is None,
{
    let first = end.take(2);
    if end.len() == 0 {
    } else if end.len() < 2 {
        let a = absorbed(k, m, end);
        assert(end.take(1) =~= end);
        assert(end.skip(1) =~= seq![]);
        assert(read_all(k, m, end) == read_all(k, a, seq![]));
    } else {
        let n = net::be_value(first);
        let a = absorbed(k, m, first);
        let left = end.skip(2);
        assert(m.buf + first =~= first);
        assert(read_all(k, m, end) == read_all(k, a, left));
        if n > 0 && left.len() > 0 {
            let j = if n < left.len() {
                n as int
            } else {
                left.len() as int
            };
            let x = left.take(j);
            let b = absorbed(k, a, x);
            assert(a.buf + x =~= x);
            assert(read_all(k, a, left) == read_all(k, b, left.skip(j)));
            if j == n {
                assert(x =~= end.subrange(2, 2 + n as int));
                assert(b.eof);
            } else {
                assert(left.skip(j) =~= seq![]);
            }
        }
    }
}

/// From the first byte of the answer on, what is read is what the chunks
/// carry, joined in order, then the end of the stream, without an error:
/// however the bytes arrive and whatever room the reader has. A chunk that
/// does not open ends the stream: nothing of it or behind it is delivered.
pub proof fn law_answer_is_delivered(
    k: ReadKeys,
    m: ReadModel,
    head: Seq<u8>,
    chunks: Seq<(Seq<u8>, Seq<u8>)>,
    end: Seq<u8>,
    s: Script,
)
    requires
        m.phase == ReadPhase::HeaderLength,
        m.buf.len() == 0,
        m.want == 18,
        is_filling(m),
        is_resp_header(k, head),
        chunks_open(k.cipher, m.count, chunks),
        is_end(k, later_count(m.count, chunks.len()), end),
    ensures
        reading(k, m, head + chunks_bytes(chunks) + end, s, 0) == (Reading {
            got: chunks_plain(chunks),
            failed: None,
        }),
{
    let wire = head + chunks_bytes(chunks) + end;
    let body = chunks_bytes(chunks) + end;
    let open = next_chunk(m);
    let last = ReadModel { count: later_count(m.count, chunks.len()), ..open };
    law_rooms_and_reads_do_not_matter(k, m, wire, s, 0);
    assert(wire =~= head + body);
    lemma_header_is_read(k, m, head);
    law_splits_do_not_matter(k, m, head, body);
    assert(open == next_chunk(open));
    law_stream_round_trip(k, open, chunks);
    law_splits_do_not_matter(k, open, chunks_bytes(chunks), end);
    assert(last == next_chunk(last));
    lemma_end_is_read(k, last, end);
    assert(read_all(k, m, wire).1 =~= chunks_plain(chunks));
}

/// An answer whose header is refused delivers nothing and ends in that error.
pub proof fn law_refused_header_delivers_nothing(
    k: ReadKeys,
    m: ReadModel,
    head: Seq<u8>,
    end: Seq<u8>,
    e: VMessError,
    s: Script,
)
    requires
        m.phase == ReadPhase::HeaderLength,
        m.buf.len() == 0,
        m.want == 18,
        is_filling(m),
        head.len() >= 18,
        match resp_length(head.take(18), k.key, k.iv) {
            Ok(n) => head.len() == 18 + n + 16 && resp_check(head.skip(18), k.auth, k.key, k.iv)
                == Err::<(), VMessError>(e),
            Err(x) => head.len() == 18 && x == e,
        },
    ensures
        reading(k, m, head + end, s, 0) == (Reading { got: seq![], failed: Some(e) }),
{
    law_rooms_and_reads_do_not_matter(k, m, head + end, s, 0);
    law_splits_do_not_matter(k, m, head, end);
    let first = head.take(18);
    let second = head.skip(18);
    let a = absorbed(k, m, first);
    assert(m.buf + first =~= first);
    assert(read_all(k, m, head) == read_all(k, a, second));
    if let Ok(n) = resp_length(first, k.key, k.iv) {
        assert(second.take(second.len() as int) =~= second);
        assert(second.skip(second.len() as int) =~= seq![]);
        assert(a.buf + second =~= second);
        let b = absorbed(k, a, second);
        assert(read_all(k, a, second) == read_all(k, b, seq![]));
    }
}

impl VMessError {
    /// The text that is shown for the error.
    pub open spec fn text(self) -> Seq<char> {
        match self {
            VMessError::DomainTooLong(n) => "Domain name too long for VMess: "@ + text::decimal(
                n as nat,
            ) + " bytes (max 255)"@,
            VMessError::HeaderLengthSealed =>
                "VMess response header length decrypt failed: aead::Error"@,
            VMessError::HeaderTooLarge(n) => "VMess response header too large: "@ + text::decimal(
                n as nat,
            ),
            VMessError::HeaderSealed => "VMess response header decrypt failed: aead::Error"@,
            VMessError::AuthMismatch { expected, got } =>
                "VMess response auth mismatch: expected "@ + text::decimal(expected as nat)
                    + ", got "@ + text::decimal(got as nat),
            VMessError::HeaderCutShort => "connection closed mid-read"@,
            VMessError::HeaderTransport(s) => s@,
            VMessError::WriteZero => "failed to write VMess chunk"@,
            VMessError::Closed => "VMess stream is closed"@,
        }
    }

    /// The text that is shown for the error.
    pub fn message(&self) -> (r: String)
        ensures
            r@ == self.text(),
    {
        let mut out: Vec<char> = Vec::new();
        match self {
            VMessError::DomainTooLong(n) => {
                text::append_str(&mut out, "Domain name too long for VMess: ");
                let d = text::decimal_text(*n as u64);
                text::append_chars(&mut out, d.as_slice());
                text::append_str(&mut out, " bytes (max 255)");
            },
            VMessError::HeaderLengthSealed => {
                text::append_str(
                    &mut out,
                    "VMess response header length decrypt failed: aead::Error",
                );
            },
            VMessError::HeaderTooLarge(n) => {
                text::append_str(&mut out, "VMess response header too large: ");
                let d = text::decimal_text(*n as u64);
                text::append_chars(&mut out, d.as_slice());
            },
            VMessError::HeaderSealed => {
                text::append_str(&mut out, "VMess response header decrypt failed: aead::Error");
            },
            VMessError::AuthMismatch { expected, got } => {
                text::append_str(&mut out, "VMess response auth mismatch: expected ");
                let d = text::decimal_text(*expected as u64);
                text::append_chars(&mut out, d.as_slice());
                text::append_str(&mut out, ", got ");
                let d = text::decimal_text(*got as u64);
                text::append_chars(&mut out, d.as_slice());
            },
            VMessError::HeaderCutShort => {
                text::append_str(&mut out, "connection closed mid-read");
            },
            VMessError::HeaderTransport(s) => {
                text::append_str(&mut out, s.as_str());
            },
            VMessError::WriteZero => {
                text::append_str(&mut out, "failed to write VMess chunk");
            },
            VMessError::Closed => {
                text::append_str(&mut out, "VMess stream is closed");
            },
        }
        assert(out@ =~= self.text());
        text::string_of(out.as_slice())
    }
}

// ---------------------------------------------------------------------------
// The server
// ---------------------------------------------------------------------------

/// A VMess server.
#[derive(Debug)]
pub struct VMessOutbound {
    pub server: String,
    pub port: u16,
    pub uuid: [u8; 16],
    pub security: VMessSecurity,
    /// How connections to the server are made.
    pub factory: TlsConnFactory,
    /// Connections are opened before they are needed.
    pub warm_pool: bool,
}

/// The server that a configuration describes, or what is wrong with the
/// user's identifier.
pub open spec fn is_outbound_for(
    r: Result<VMessOutbound, String>,
    server: Seq<char>,
    port: u16,
    uuid_str: Seq<char>,
    cipher: Seq<char>,
    transport: Option<&TransportConfig>,
    warm_pool: bool,
) -> bool {
    match crypto::uuid_of(vstd::utf8::encode_utf8(uuid_str)) {
        Some(id) => r matches Ok(o) && o.server@ == server && o.port == port && o.uuid@ == id
            && o.security == security_named(text::folded(cipher)) && o.factory@
            == transport::transport_factory(server, port, transport, false) && o.warm_pool
            == warm_pool,
        None => r matches Err(e) && e@ == crypto::uuid_complaint(uuid_str),
    }
}

/// The key of the other direction: half of the SHA-256 digest.
pub open spec fn response_half(key: Seq<u8>) -> Seq<u8> {
    crypto::sha256_of(key).take(16)
}

/// The stream under a session's keys.
pub open spec fn is_session(
    stream: VMessStream,
    security: VMessSecurity,
    body_key: Seq<u8>,
    body_iv: Seq<u8>,
    resp_auth: u8,
) -> bool {
    &&& stream.wf()
    &&& is_cipher_for(stream.write_cipher, security, body_key, body_iv)
    &&& is_cipher_for(
        stream.read_cipher,
        security,
        response_half(body_key),
        response_half(body_iv),
    )
    &&& stream.keys().key == response_half(body_key)
    &&& stream.keys().iv == response_half(body_iv)
    &&& stream.keys().auth == resp_auth
    &&& stream.reading() == (ReadModel {
        phase: ReadPhase::HeaderLength,
        buf: seq![],
        want: 18,
        taken: 0,
        count: 0,
        fatal: None,
        eof: false,
    })
    &&& stream.writing() == (WriteModel {
        pending: seq![],
        in_flight: None,
        count: 0,
        closed: false,
    })
}

/// The bytes are a request for a target under a session's keys.
pub open spec fn asks_for(
    uuid: Seq<u8>,
    security: VMessSecurity,
    body_key: [u8; 16],
    body_iv: [u8; 16],
    resp_auth: u8,
    host: &str,
    port: u16,
    wire: Seq<u8>,
) -> bool {
    exists|t: u64, salt: Seq<u8>, nonce: Seq<u8>, padding: Seq<u8>|
        is_request(
            uuid,
            (VMessRequest {
                body_key: &body_key,
                body_iv: &body_iv,
                resp_auth,
                security,
                host,
                port,
            }),
            wire,
            t,
            salt,
            nonce,
            padding,
        )
}

/// A request with the stream that follows it, under some keys.
pub open spec fn is_opening(
    o: VMessOutbound,
    host: &str,
    port: u16,
    wire: Seq<u8>,
    stream: VMessStream,
) -> bool {
    exists|body_key: [u8; 16], body_iv: [u8; 16], resp_auth: u8|
        asks_for(o.uuid@, o.security, body_key, body_iv, resp_auth, host, port, wire)
            && #[trigger] is_session(stream, o.security, body_key@, body_iv@, resp_auth)
}

impl VMessOutbound {
    /// A server whose connections are opened before they are needed.
    pub fn new(
        server: &str,
        port: u16,
        uuid_str: &str,
        cipher: &str,
        transport: Option<&TransportConfig>,
    ) -> (r: Result<Self, String>)
        ensures
            is_outbound_for(r, server@, port, uuid_str@, cipher@, transport, true),
    {
        Self::build(server, port, uuid_str, cipher, transport, true)
    }

    /// A server that is connected to only when asked.
    pub fn new_unwarmed(
        server: &str,
        port: u16,
        uuid_str: &str,
        cipher: &str,
        transport: Option<&TransportConfig>,
    ) -> (r: Result<Self, String>)
        ensures
            is_outbound_for(r, server@, port, uuid_str@, cipher@, transport, false),
    {
        Self::build(server, port, uuid_str, cipher, transport, false)
    }

    fn build(
        server: &str,
        port: u16,
        uuid_str: &str,
        cipher: &str,
        transport: Option<&TransportConfig>,
        warm_pool: bool,
    ) -> (r: Result<Self, String>)
        ensures
            is_outbound_for(r, server@, port, uuid_str@, cipher@, transport, warm_pool),
    {
        let uuid: [u8; 16] = match crypto::parse_uuid(uuid_str) {
            Ok(id) => id,
            Err(e) => {
                return Err(e);
            },
        };
        Ok(
            VMessOutbound {
                server: text::string_of(text::chars_of(server).as_slice()),
                port,
                uuid,
                security: VMessSecurity::from_str(cipher),
                factory: TlsConnFactory::from_transport(server, port, transport, false),
                warm_pool,
            },
        )
    }

    /// The request for a target and the stream that follows it, under the
    /// given keys.
    pub fn open_with(
        &self,
        host: &str,
        port: u16,
        body_key: &[u8; 16],
        body_iv: &[u8; 16],
        resp_auth: u8,
    ) -> (r: Result<(Vec<u8>, VMessStream), VMessError>)
        ensures
            r is Ok == address::host_fits(host),
            r matches Ok(o) ==> asks_for(
                self.uuid@,
                self.security,
                *body_key,
                *body_iv,
                resp_auth,
                host,
                port,
                o.0@,
            ) && is_session(o.1, self.security, body_key@, body_iv@, resp_auth),
            r matches Err(e) ==> e == VMessError::DomainTooLong(host.spec_bytes().len() as usize),
    {
        let header = match build_vmess_header(
            &self.uuid,
            body_key,
            body_iv,
            resp_auth,
            self.security,
            host,
            port,
        ) {
            Ok(h) => h,
            Err(e) => {
                return Err(e);
            },
        };
        let key_digest = crypto::sha256(body_key.as_slice());
        let iv_digest = crypto::sha256(body_iv.as_slice());
        let resp_key = bytes::array16(key_digest.as_slice());
        let resp_iv = bytes::array16(iv_digest.as_slice());
        let stream = VMessStream::new(
            body_key,
            body_iv,
            &resp_key,
            &resp_iv,
            resp_auth,
            self.security,
        );
        Ok((header, stream))
    }

    /// The request for a target and the stream that follows it, under keys
    /// that are left to chance.
    pub fn open(&self, host: &str, port: u16) -> (r: Result<(Vec<u8>, VMessStream), VMessError>)
        ensures
            r is Ok == address::host_fits(host),
            r matches Ok(o) ==> is_opening(*self, host, port, o.0@, o.1),
            r matches Err(e) ==> e == VMessError::DomainTooLong(host.spec_bytes().len() as usize),
    {
        let body_key = bytes::array16(crypto::random_bytes(16).as_slice());
        let body_iv = bytes::array16(crypto::random_bytes(16).as_slice());
        let auth = crypto::random_bytes(1);
        self.open_with(host, port, &body_key, &body_iv, auth[0])
    }
}

// ---------------------------------------------------------------------------
// What a server reads
// ---------------------------------------------------------------------------

/// What a server reads out of a request.
#[verifier::ext_equal]
pub struct ServedRequest {
    pub iv: Seq<u8>,
    pub key: Seq<u8>,
    pub resp_auth: u8,
    /// The number of the security type.
    pub security: int,
    pub port: int,
    pub target: address::Destination,
    pub padding: Seq<u8>,
}

/// The checksum of a message: 2166136261, and for every byte combined with it
/// and multiplied with 16777619, modulo 2 to the power of 32.
pub open spec fn checksum(msg: Seq<u8>) -> int
    decreases msg.len(),
{
    if msg.len() == 0 {
        2166136261
    } else {
        ((checksum(msg.drop_last()) as u32) ^ (msg.last() as u32)) * 16777619 % 4294967296
    }
}

/// A server reads an opened header by the places of its fields: version, IV,
/// key, response byte, options, padding length and security, a zero, command,
/// port, address, padding, checksum.
pub open spec fn served_header(h: Seq<u8>) -> Option<ServedRequest> {
    if h.len() < 45 || h[0] != 1 || h[34] != 1 || h[36] != 0 || h[37] != 1 {
        None
    } else {
        match address::destination_at(h, 40, 1, 3, 2) {
            Some((target, end)) => if h.len() != end + h[35] / 16 + 4 || address::long_at(
                h,
                h.len() - 4,
            ) != checksum(h.take(h.len() - 4)) {
                None
            } else {
                Some(
                    ServedRequest {
                        iv: h.subrange(1, 17),
                        key: h.subrange(17, 33),
                        resp_auth: h[33],
                        security: (h[35] % 16) as int,
                        port: address::word_at(h, 38),
                        target,
                        padding: h.subrange(end, h.len() - 4),
                    },
                )
            },
            None => None,
        }
    }
}

/// A server that knows the user reads a request: the authentication id in 16
/// bytes, the sealed length in 18, the nonce in 8, and the sealed header.
pub open spec fn served_request(uuid: Seq<u8>, wire: Seq<u8>) -> Option<ServedRequest> {
    let cmd = crypto::md5_of(uuid + "c48619fe-8f02-49e0-b9e9-edf763e17e21".spec_bytes());
    let id = wire.take(16);
    let nonce = wire.subrange(34, 42);
    match crypto::gcm_opened(
        kdf_hash(seq!["VMess Header AEAD Key_Length".spec_bytes(), id, nonce], cmd).take(16),
        kdf_hash(seq!["VMess Header AEAD Nonce_Length".spec_bytes(), id, nonce], cmd).take(12),
        id,
        wire.subrange(16, 34),
    ) {
        Some(length) => if wire.len() != 58 + address::word_at(length, 0) {
            None
        } else {
            match crypto::gcm_opened(
                kdf_hash(seq!["VMess Header AEAD Key".spec_bytes(), id, nonce], cmd).take(16),
                kdf_hash(seq!["VMess Header AEAD Nonce".spec_bytes(), id, nonce], cmd).take(12),
                id,
                wire.skip(42),
            ) {
                Some(h) => served_header(h),
                None => None,
            }
        },
        None => None,
    }
}

proof fn lemma_checksum(msg: Seq<u8>)
    ensures
        fnv1a_of(msg) == checksum(msg),
    decreases msg.len(),
{
    if msg.len() > 0 {
        lemma_checksum(msg.drop_last());
    }
}

/// The fields of a header up to the address.
spec fn front(req: VMessRequest, padding: Seq<u8>) -> Seq<u8> {
    seq![1u8] + req.body_iv@ + req.body_key@ + seq![
        req.resp_auth,
        1u8,
        (padding.len() * 16 + req.security.code()) as u8,
        0u8,
        1u8,
    ] + net::be_bytes(req.port as nat, 2)
}

/// A header is made of its fields up to the address, the address, the padding
/// and the checksum.
#[verifier::spinoff_prover]
proof fn lemma_header_parts(req: VMessRequest, padding: Seq<u8>)
    ensures
        plain_header(req, padding) == front(req, padding) + address::host_bytes(
            vmess_tags(),
            req.host,
        ) + (padding + net::be_bytes(fnv1a_of(header_body(req, padding)) as nat, 4)),
        header_body(req, padding) == front(req, padding) + address::host_bytes(
            vmess_tags(),
            req.host,
        ) + padding,
{
    let name = address::host_bytes(vmess_tags(), req.host);
    let sum = net::be_bytes(fnv1a_of(header_body(req, padding)) as nat, 4);
    assert(front(req, padding) + name + padding + sum =~= front(req, padding) + name + (padding
        + sum));
}

/// The places of the fields up to the address.
#[verifier::spinoff_prover]
proof fn lemma_front(req: VMessRequest, padding: Seq<u8>)
    requires
        padding.len() < 16,
    ensures
        ({
            let f = front(req, padding);
            &&& f.len() == 40
            &&& f[0] == 1
            &&& f.subrange(1, 17) == req.body_iv@
            &&& f.subrange(17, 33) == req.body_key@
            &&& f[33] == req.resp_auth
            &&& f[34] == 1
            &&& f[35] == padding.len() * 16 + req.security.code()
            &&& f[36] == 0
            &&& f[37] == 1
            &&& f.subrange(38, 40) == net::be_bytes(req.port as nat, 2)
        }),
{
    let f = front(req, padding);
    net::lemma_be_bytes_len(req.port as nat, 2);
    assert(f.subrange(1, 17) =~= req.body_iv@);
    assert(f.subrange(17, 33) =~= req.body_key@);
    assert(f.subrange(38, 40) =~= net::be_bytes(req.port as nat, 2));
}

/// A server reads out of a header what was asked for.
#[verifier::spinoff_prover]
#[verifier::rlimit(30)]
pub proof fn law_header_is_read_by_the_server(req: VMessRequest, padding: Seq<u8>)
    requires
        address::host_fits(req.host),
        padding.len() < 16,
    ensures
        served_header(plain_header(req, padding)) == Some(
            ServedRequest {
                iv: req.body_iv@,
                key: req.body_key@,
                resp_auth: req.resp_auth,
                security: match req.security {
                    VMessSecurity::Aes128Gcm | VMessSecurity::Auto => 3,
                    VMessSecurity::Chacha20Poly1305 => 4,
                    VMessSecurity::Unencrypted => 5,
                    VMessSecurity::Zero => 6,
                },
                port: req.port as int,
                target: address::destination_of(req.host@),
                padding,
            },
        ),
        46 <= plain_header(req, padding).len() <= 316,
{
    let body = header_body(req, padding);
    let h = plain_header(req, padding);
    let f = front(req, padding);
    let name = address::host_bytes(vmess_tags(), req.host);
    let sum = net::be_bytes(fnv1a_of(body) as nat, 4);
    lemma_header_parts(req, padding);
    lemma_front(req, padding);
    address::lemma_host_len(vmess_tags(), req.host);
    net::lemma_be_bytes_len(fnv1a_of(body) as nat, 4);
    net::lemma_powers_of_256();
    net::lemma_be_round_trip(req.port as nat, 2);
    net::lemma_be_round_trip(fnv1a_of(body) as nat, 4);
    address::law_host_is_read_back(vmess_tags(), f, req.host, padding + sum);
    let end = 40 + name.len() as int;
    assert(h.subrange(38, 40) =~= f.subrange(38, 40));
    address::lemma_numbers(h, 38);
    assert(h.subrange(h.len() - 4, h.len() as int) =~= sum);
    address::lemma_numbers(h, h.len() - 4);
    assert(h.take(h.len() - 4) =~= body);
    lemma_checksum(body);
    assert(h.subrange(1, 17) =~= f.subrange(1, 17));
    assert(h.subrange(17, 33) =~= f.subrange(17, 33));
    assert(h.subrange(end, h.len() - 4) =~= padding);
}

/// A server that knows the user reads out of a request what was asked for:
/// keys, response byte, security type, port and target.
pub proof fn law_request_is_read_by_the_server(
    uuid: Seq<u8>,
    req: VMessRequest,
    wire: Seq<u8>,
    timestamp: u64,
    salt: Seq<u8>,
    nonce: Seq<u8>,
    padding: Seq<u8>,
)
    requires
        address::host_fits(req.host),
        is_request(uuid, req, wire, timestamp, salt, nonce, padding),
    ensures
        served_request(uuid, wire) == Some(
            ServedRequest {
                iv: req.body_iv@,
                key: req.body_key@,
                resp_auth: req.resp_auth,
                security: match req.security {
                    VMessSecurity::Aes128Gcm | VMessSecurity::Auto => 3,
                    VMessSecurity::Chacha20Poly1305 => 4,
                    VMessSecurity::Unencrypted => 5,
                    VMessSecurity::Zero => 6,
                },
                port: req.port as int,
                target: address::destination_of(req.host@),
                padding,
            },
        ),
{
    let h = plain_header(req, padding);
    law_header_is_read_by_the_server(req, padding);
    let length = net::be_bytes(h.len(), 2);
    net::lemma_be_bytes_len(h.len(), 2);
    net::lemma_powers_of_256();
    net::lemma_be_round_trip(h.len(), 2);
    assert(length.subrange(0, 2) =~= length);
    address::lemma_numbers(length, 0);
}

/// A server finds the time stamp, the free bytes and their checksum in the
/// block that it gets by decrypting an authentication id.
pub proof fn law_auth_id_carries_the_time(cmd_key: Seq<u8>, timestamp: u64, salt: Seq<u8>)
    requires
        salt.len() == 4,
    ensures
        ({
            let b = auth_id_block(timestamp, salt);
            &&& b.len() == 16
            &&& address::long_at(b, 0) * 0x1_0000_0000 + address::long_at(b, 4) == timestamp
            &&& b.subrange(8, 12) == salt
            &&& address::long_at(b, 12) == crypto::crc32_of(b.take(12))
            &&& auth_id_of(cmd_key, timestamp, salt) == crypto::aes128_block_of(
                kdf_hash(seq!["AES Auth ID Encryption".spec_bytes()], cmd_key).take(16),
                b,
            )
        }),
{
    let b = auth_id_block(timestamp, salt);
    let stamp = net::be_bytes(timestamp as nat, 8);
    let crc = crypto::crc32_of(stamp + salt);
    net::lemma_be_bytes_len(timestamp as nat, 8);
    net::lemma_be_bytes_len(crc as nat, 4);
    net::lemma_powers_of_256();
    net::lemma_be_round_trip(timestamp as nat, 8);
    net::lemma_be_round_trip(crc as nat, 4);
    assert(b.take(12) =~= stamp + salt);
    assert(b.subrange(8, 12) =~= salt);
    assert(b.subrange(12, 16) =~= net::be_bytes(crc as nat, 4));
    address::lemma_numbers(b, 12);
    assert(b.take(8) =~= stamp);
    address::lemma_two_longs(b.take(8));
}

/// The keys of a session: what is written is sealed under the keys of the
/// request, what is read is opened under the first halves of their digests,
/// with the cipher that was asked for; and both directions begin with chunk
/// zero.
pub proof fn law_session_follows_the_request(
    stream: VMessStream,
    security: VMessSecurity,
    body_key: Seq<u8>,
    body_iv: Seq<u8>,
    resp_auth: u8,
    count: u16,
    msg: Seq<u8>,
)
    requires
        body_key.len() == 16,
        body_iv.len() == 16,
        is_session(stream, security, body_key, body_iv, resp_auth),
    ensures
        ({
            let nonce = net::be_bytes(count as nat, 2) + body_iv.subrange(2, 12);
            let sealed = stream.write_cipher.sealed(count, msg);
            match security {
                VMessSecurity::Aes128Gcm | VMessSecurity::Auto => sealed == crypto::gcm_sealed(
                    body_key,
                    nonce,
                    Seq::empty(),
                    msg,
                ),
                VMessSecurity::Chacha20Poly1305 => sealed == crypto::chacha_sealed(
                    crypto::md5_of(body_key) + crypto::md5_of(crypto::md5_of(body_key)),
                    nonce,
                    msg,
                ),
                VMessSecurity::Unencrypted | VMessSecurity::Zero => sealed == Some(msg),
            }
        }),
        ({
            let key = crypto::sha256_of(body_key).take(16);
            let iv = crypto::sha256_of(body_iv).take(16);
            let nonce = net::be_bytes(count as nat, 2) + iv.subrange(2, 12);
            let opened = stream.read_cipher.opened(count, msg);
            &&& match security {
                VMessSecurity::Aes128Gcm | VMessSecurity::Auto => opened == crypto::gcm_opened(
                    key,
                    nonce,
                    Seq::empty(),
                    msg,
                ),
                VMessSecurity::Chacha20Poly1305 => opened == crypto::chacha_opened(
                    crypto::md5_of(key) + crypto::md5_of(crypto::md5_of(key)),
                    nonce,
                    msg,
                ),
                VMessSecurity::Unencrypted | VMessSecurity::Zero => opened == Some(msg),
            }
            &&& stream.resp_key@ == key
            &&& stream.resp_iv@ == iv
        }),
        stream.resp_auth == resp_auth,
        stream.read_count == 0,
        stream.write_count == 0,
        stream.max_chunk + (if security == VMessSecurity::Unencrypted || security
            == VMessSecurity::Zero {
            0int
        } else {
            16int
        }) == 16384,
{
}

/// The nonce of a chunk: its number in two bytes, then ten bytes of the IV
/// from the third on.
pub proof fn law_chunk_nonce(iv: Seq<u8>, count: u16)
    requires
        iv.len() == 16,
    ensures
        nonce_of(iv, count).len() == 12,
        address::word_at(nonce_of(iv, count), 0) == count,
        forall|i: int| 2 <= i < 12 ==> #[trigger] nonce_of(iv, count)[i] == iv[i],
{
    let n = nonce_of(iv, count);
    net::lemma_be_bytes_len(count as nat, 2);
    net::lemma_powers_of_256();
    net::lemma_be_round_trip(count as nat, 2);
    assert(n.subrange(0, 2) =~= net::be_bytes(count as nat, 2));
    address::lemma_numbers(n, 0);
}

/// What a client opens: the server that knows the user reads the target and
/// the port out of the request, and answers under the keys and with the byte
/// that the stream expects.
pub proof fn law_opening_leads_to_the_target(
    o: VMessOutbound,
    host: &str,
    port: u16,
    wire: Seq<u8>,
    stream: VMessStream,
)
    requires
        address::host_fits(host),
        is_opening(o, host, port, wire, stream),
    ensures
        served_request(o.uuid@, wire) is Some,
        ({
            let s = served_request(o.uuid@, wire)->0;
            &&& s.target == address::destination_of(host@)
            &&& s.port == port
            &&& s.resp_auth == stream.resp_auth
            &&& stream.resp_key@ == crypto::sha256_of(s.key).take(16)
            &&& stream.resp_iv@ == crypto::sha256_of(s.iv).take(16)
            &&& s.security == (match o.security {
                VMessSecurity::Aes128Gcm | VMessSecurity::Auto => 3int,
                VMessSecurity::Chacha20Poly1305 => 4,
                VMessSecurity::Unencrypted => 5,
                VMessSecurity::Zero => 6,
            })
            &&& is_cipher_for(stream.write_cipher, o.security, s.key, s.iv)
        }),
{
    let (body_key, body_iv, resp_auth) = choose|
        body_key: [u8; 16],
        body_iv: [u8; 16],
        resp_auth: u8,
    |
        asks_for(o.uuid@, o.security, body_key, body_iv, resp_auth, host, port, wire)
            && #[trigger] is_session(stream, o.security, body_key@, body_iv@, resp_auth);
    let req = VMessRequest {
        body_key: &body_key,
        body_iv: &body_iv,
        resp_auth,
        security: o.security,
        host,
        port,
    };
    let (t, salt, nonce, padding) = choose|
        t: u64,
        salt: Seq<u8>,
        nonce: Seq<u8>,
        padding: Seq<u8>,
    | is_request(o.uuid@, req, wire, t, salt, nonce, padding);
    law_request_is_read_by_the_server(o.uuid@, req, wire, t, salt, nonce, padding);
}

/// The answer of a server that holds the keys is taken for what it is: the
/// length in two sealed bytes, then a sealed block whose first byte is the one
/// that was asked for. Any other first byte is refused.
pub proof fn law_answer_of_the_server_is_known(k: ReadKeys, head: Seq<u8>, length: Seq<u8>, body: Seq<u8>)
    requires
        head.len() >= 18,
        crypto::gcm_opened(
            kdf_hash(seq!["AEAD Resp Header Len Key".spec_bytes()], k.key).take(16),
            kdf_hash(seq!["AEAD Resp Header Len IV".spec_bytes()], k.iv).take(12),
            Seq::empty(),
            head.take(18),
        ) == Some(length),
        length.len() == 2,
        address::word_at(length, 0) <= 256,
        head.len() == 18 + address::word_at(length, 0) + 16,
        crypto::gcm_opened(
            kdf_hash(seq!["AEAD Resp Header Key".spec_bytes()], k.key).take(16),
            kdf_hash(seq!["AEAD Resp Header IV".spec_bytes()], k.iv).take(12),
            Seq::empty(),
            head.skip(18),
        ) == Some(body),
        body.len() > 0,
    ensures
        is_resp_header(k, head) == (body[0] == k.auth),
{
    assert(length.subrange(0, 2) =~= length.take(2));
    address::lemma_numbers(length, 0);
}

/// What a read comes to.
pub open spec fn polled(m: ReadModel, room: usize, r: ReadStep, after: ReadModel) -> bool {
    let rest = m.buf.skip(m.taken as int);
    if room == 0 || m.eof {
        &&& r matches ReadStep::Deliver(d) && d@ == Seq::<u8>::empty()
        &&& after == m
    } else if m.fatal is Some {
        &&& r == ReadStep::Fail(m.fatal->0)
        &&& after == (ReadModel { fatal: None, eof: true, ..m })
    } else if m.phase == ReadPhase::Plain {
        let n = if room < rest.len() { room as nat } else { rest.len() };
        &&& r matches ReadStep::Deliver(d) && d@ == rest.take(n as int) && d@.len() > 0
        &&& after == if n == rest.len() {
            next_chunk(m)
        } else {
            ReadModel { taken: m.taken + n, ..m }
        }
    } else {
        &&& r == ReadStep::Fill((m.want - m.buf.len()) as usize)
        &&& m.buf.len() < m.want
        &&& after == m
    }
}

/// What an offer of bytes comes to.
pub open spec fn offered(s: VMessStream, data: Seq<u8>, r: WriteStep, after: WriteModel) -> bool {
    let w = s.writing();
    let n = chunk_share(data.len(), s.max_chunk as nat) as usize;
    if w.closed {
        &&& r == WriteStep::Fail(VMessError::Closed)
        &&& after == w
    } else if w.in_flight is Some || w.pending.len() > 0 {
        &&& r == WriteStep::Drain
        &&& after == w
    } else if data.len() == 0 {
        &&& r == WriteStep::Done(0)
        &&& after == w
    } else {
        let sealed = s.write_cipher.sealed(w.count, data.take(n as int))->0;
        &&& r == WriteStep::Drain
        &&& after == (WriteModel { pending: chunk_bytes(sealed), in_flight: Some(n), ..w })
        &&& 0 < sealed.len() <= MAX_CHUNK
        &&& s.write_cipher.opened(w.count, sealed) == Some(data.take(n as int))
    }
}

/// What it comes to that the transport took `n` of the bytes.
pub open spec fn sent(w: WriteModel, n: usize, r: Result<(), VMessError>, after: WriteModel) -> bool {
    &&& n == 0 ==> r == Err::<(), VMessError>(VMessError::WriteZero) && after == (WriteModel {
        pending: seq![],
        ..w
    })
    &&& n > 0 ==> r == Ok::<(), VMessError>(()) && after == (WriteModel {
        pending: w.pending.skip(n as int),
        ..w
    })
}

/// What the writer is told once the chunk is on its way.
pub open spec fn finished(w: WriteModel, r: Option<usize>, after: WriteModel) -> bool {
    &&& r == w.in_flight
    &&& after == (WriteModel {
        in_flight: None,
        count: if r is Some {
            w.count.wrapping_add(1)
        } else {
            w.count
        },
        ..w
    })
}

/// A reader gets the bytes of a chunk in order, and some wherever there are some and it has
/// room; a failure is told once, and the end from then on.
pub proof fn law_reader_gets_bytes_in_order(m: ReadModel, room: usize, r: ReadStep, after: ReadModel)
    requires
        polled(m, room, r, after),
        room > 0,
        m.want <= usize::MAX,
        m.phase == ReadPhase::Plain ==> m.taken < m.buf.len(),
    ensures
        m.eof ==> (r matches ReadStep::Deliver(d) && d@.len() == 0),
        !m.eof && m.fatal is Some ==> r == ReadStep::Fail(m.fatal->0) && after.eof && after.fatal
            is None,
        !m.eof && m.fatal is None && m.phase == ReadPhase::Plain ==> (r matches ReadStep::Deliver(d)
            && 0 < d@.len() <= room && d@ == m.buf.subrange(
            m.taken as int,
            m.taken as int + d@.len(),
        ) && (m.taken + d@.len() < m.buf.len() ==> after.taken == m.taken + d@.len() && after.buf
            == m.buf && after.phase == ReadPhase::Plain)),
        !m.eof && m.fatal is None && m.phase != ReadPhase::Plain ==> (r matches ReadStep::Fill(n)
            && m.buf.len() + n == m.want),
{
    let rest = m.buf.skip(m.taken as int);
    if let ReadStep::Deliver(d) = r {
        if !m.eof && m.fatal is None && m.phase == ReadPhase::Plain {
            assert(d@ =~= m.buf.subrange(m.taken as int, m.taken as int + d@.len()));
        }
    }
}

/// What a writer offers goes out as one chunk with its length in front, highest byte first,
/// which opens under the number of the chunk to the first of the bytes; when it is on its way
/// the writer is told how many went, and the next chunk has the next number.
pub proof fn law_offer_becomes_a_chunk(
    s: VMessStream,
    data: Seq<u8>,
    r: WriteStep,
    after: WriteModel,
    told: Option<usize>,
    last: WriteModel,
)
    requires
        data.len() > 0,
        s.max_chunk > 0,
        !s.writing().closed,
        s.writing().in_flight is None,
        s.writing().pending.len() == 0,
        offered(s, data, r, after),
        finished(WriteModel { pending: seq![], ..after }, told, last),
    ensures
        ({
            let n: int = if data.len() < s.max_chunk {
                data.len() as int
            } else {
                s.max_chunk as int
            };
            &&& r is Drain
            &&& after.pending.len() > 2
            &&& after.pending[0] * 256 + after.pending[1] == after.pending.len() - 2
            &&& s.write_cipher.opened(s.writing().count, after.pending.skip(2)) == Some(data.take(n))
            &&& told == Some(n as usize)
            &&& last.count == (s.writing().count + 1) % 0x1_0000
            &&& last.pending.len() == 0 && last.in_flight is None && !last.closed
        }),
{
    let n = chunk_share(data.len(), s.max_chunk as nat) as usize;
    let sealed = s.write_cipher.sealed(s.writing().count, data.take(n as int))->0;
    net::law_high_bytes_first(sealed.len(), 2);
    net::law_high_bytes_first(sealed.len() / 256, 1);
    let b = net::be_bytes(sealed.len(), 2);
    assert(b.drop_last().last() == b[0]);
    assert(after.pending[0] == b[0] && after.pending[1] == b[1]);
    assert(after.pending.skip(2) =~= sealed);
}

/// A chunk that is still on its way goes first, and a closed stream takes nothing.
pub proof fn law_chunks_do_not_overtake(
    s: VMessStream,
    data: Seq<u8>,
    r: WriteStep,
    after: WriteModel,
)
    requires
        offered(s, data, r, after),
    ensures
        s.writing().closed ==> r == WriteStep::Fail(VMessError::Closed) && after == s.writing(),
        !s.writing().closed && (s.writing().in_flight is Some || s.writing().pending.len() > 0)
            ==> r is Drain && after == s.writing(),
{
}

/// What the transport took and what is left for it make up what there was; a transport that
/// takes nothing is an error.
pub proof fn law_bytes_go_out_in_order(
    w: WriteModel,
    n: usize,
    r: Result<(), VMessError>,
    after: WriteModel,
)
    requires
        n <= w.pending.len(),
        sent(w, n, r, after),
    ensures
        r is Ok == (n > 0),
        n > 0 ==> w.pending.take(n as int) + after.pending == w.pending,
        after.in_flight == w.in_flight,
        after.count == w.count,
{
    assert(w.pending.take(n as int) + w.pending.skip(n as int) =~= w.pending);
}

/// A key as the HMAC of SHA-256 uses it: 64 bytes, zeros behind the key, each combined with the
/// pad byte.
pub open spec fn hmac_pad(key: Seq<u8>, pad: u8) -> Seq<u8> {
    Seq::new(
        64,
        |i: int|
            if i < key.len() {
                pad ^ key[i]
            } else {
                pad
            },
    )
}

proof fn lemma_hmac_pad(key: Seq<u8>, pad: u8)
    requires
        key.len() <= 64,
    ensures
        padded_block(key, pad) == hmac_pad(key, pad),
{
    assert(pad ^ 0u8 == pad) by (bit_vector);
    assert(padded_block(key, pad) =~= hmac_pad(key, pad));
}

/// Keys are derived by an HMAC over SHA-256 under a fixed name, and every path makes of that an
/// HMAC over the hash before it.
pub proof fn law_key_derivation(paths: Seq<Seq<u8>>, path: Seq<u8>, msg: Seq<u8>)
    requires
        path.len() <= 64,
    ensures
        kdf_hash(seq![], msg) == crypto::sha256_of(
            hmac_pad("VMess AEAD KDF".spec_bytes(), 0x5c) + crypto::sha256_of(
                hmac_pad("VMess AEAD KDF".spec_bytes(), 0x36) + msg,
            ),
        ),
        kdf_hash(paths.push(path), msg) == kdf_hash(
            paths,
            hmac_pad(path, 0x5c) + kdf_hash(paths, hmac_pad(path, 0x36) + msg),
        ),
{
    lemma_hmac_pad(path, 0x5c);
    lemma_hmac_pad(path, 0x36);
    reveal_strlit("VMess AEAD KDF");
    vstd::utf8::is_ascii_chars_encode_utf8("VMess AEAD KDF"@);
    lemma_hmac_pad("VMess AEAD KDF".spec_bytes(), 0x5c);
    lemma_hmac_pad("VMess AEAD KDF".spec_bytes(), 0x36);
    assert(paths.push(path).drop_last() =~= paths);
}

/// The name of a cipher stands for the number that goes into the header; a name that is not
/// known stands for AES-128-GCM.
pub proof fn law_cipher_names(name: Seq<char>)
    ensures
        ({
            let code = security_named(name).code();
            &&& code == 4 <==> name == "chacha20-poly1305"@ || name == "chacha20-ietf-poly1305"@
            &&& code == 5 <==> name == "none"@
            &&& code == 6 <==> name == "zero"@
            &&& code == 3 || code == 4 || code == 5 || code == 6
        }),
{
    reveal_strlit("chacha20-poly1305");
    reveal_strlit("chacha20-ietf-poly1305");
    reveal_strlit("none");
    reveal_strlit("zero");
    assert("none"@[0] == 'n' && "zero"@[0] == 'z' && "none"@.len() == 4 && "zero"@.len() == 4);
    assert("chacha20-poly1305"@[0] == 'c' && "chacha20-ietf-poly1305"@[0] == 'c');
}

/// The two bytes before a chunk are its length, the higher first, and a zero ends the stream; a
/// whole chunk is opened under its number, and one that does not open ends the stream.
pub proof fn law_chunks_are_read(k: ReadKeys, m: ReadModel, data: Seq<u8>)
    requires
        m.buf.len() == 0,
        data.len() == m.want,
    ensures
        m.phase == ReadPhase::ChunkLength && data.len() == 2 && data[0] * 256 + data[1] == 0
            ==> absorbed(k, m, data).eof,
        m.phase == ReadPhase::ChunkLength && data.len() == 2 && data[0] * 256 + data[1] > 0 ==> {
            let n = absorbed(k, m, data);
            n.phase == ReadPhase::ChunkPayload && n.want == data[0] * 256 + data[1] && n.buf.len()
                == 0 && n.count == m.count && !n.eof == !m.eof
        },
        m.phase == ReadPhase::ChunkPayload ==> {
            let n = absorbed(k, m, data);
            match k.cipher.opened(m.count, data) {
                Some(plain) => n.count == (m.count + 1) % 0x1_0000 && (plain.len() > 0 ==> n.phase
                    == ReadPhase::Plain && n.buf == plain && n.taken == 0),
                None => n.eof,
            }
        },
{
    assert(m.buf + data =~= data);
    if data.len() == 2 {
        assert(data.drop_last().drop_last() =~= Seq::<u8>::empty());
        assert(data.drop_last().last() == data[0]);
        reveal_with_fuel(net::be_value, 3);
    }
}

} // verus!
