//! The cryptographic primitives and encodings the wire formats are made of.
//!
//! Every function here calls an outside crate. What such a function computes
//! is given a name over byte sequences; the contracts of the library are
//! stated over these names.

use aes::cipher::{BlockEncrypt, KeyInit};
use aes_gcm::aead::Aead;
use base64::Engine;
use hmac::Mac;
use sha2::Digest;
use vstd::prelude::*;
use vstd::string::StringSliceAdditionalSpecFns;

verus! {

broadcast use {
    vstd::seq::group_seq_axioms,
    vstd::slice::group_slice_axioms,
    vstd::string::group_string_axioms,
    vstd::std_specs::vec::group_vec_axioms,
};

// ---------------------------------------------------------------------------
// Digests
// ---------------------------------------------------------------------------

/// The MD5 digest of a message.
pub uninterp spec fn md5_of(msg: Seq<u8>) -> Seq<u8>;

/// The SHA-1 digest of a message.
pub uninterp spec fn sha1_of(msg: Seq<u8>) -> Seq<u8>;

/// The SHA-224 digest of a message.
pub uninterp spec fn sha224_of(msg: Seq<u8>) -> Seq<u8>;

/// The SHA-256 digest of a message.
pub uninterp spec fn sha256_of(msg: Seq<u8>) -> Seq<u8>;

/// `md5::Md5::digest`: sixteen bytes that depend on the message alone.
#[verifier::external_body]
pub(crate) fn md5(msg: &[u8]) -> (r: Vec<u8>)
    ensures
        r@ == md5_of(msg@),
        r@.len() == 16,
{
    md5::Md5::digest(msg).to_vec()
}

/// `sha1::Sha1::digest`: twenty bytes that depend on the message alone.
#[verifier::external_body]
pub(crate) fn sha1(msg: &[u8]) -> (r: Vec<u8>)
    ensures
        r@ == sha1_of(msg@),
        r@.len() == 20,
{
    sha1::Sha1::digest(msg).to_vec()
}

/// `sha2::Sha224::digest`: 28 bytes that depend on the message alone.
#[verifier::external_body]
pub(crate) fn sha224(msg: &[u8]) -> (r: Vec<u8>)
    ensures
        r@ == sha224_of(msg@),
        r@.len() == 28,
{
    sha2::Sha224::digest(msg).to_vec()
}

/// `sha2::Sha256::digest`: 32 bytes that depend on the message alone.
#[verifier::external_body]
pub(crate) fn sha256(msg: &[u8]) -> (r: Vec<u8>)
    ensures
        r@ == sha256_of(msg@),
        r@.len() == 32,
{
    sha2::Sha256::digest(msg).to_vec()
}

/// The CRC-32 (IEEE) checksum of a message.
pub uninterp spec fn crc32_of(msg: Seq<u8>) -> u32;

/// `crc32fast::hash`: a checksum that depends on the message alone.
#[verifier::external_body]
pub(crate) fn crc32(msg: &[u8]) -> (r: u32)
    ensures
        r == crc32_of(msg@),
{
    crc32fast::hash(msg)
}

// ---------------------------------------------------------------------------
// Message authentication
// ---------------------------------------------------------------------------

/// The HMAC-SHA1 of a message under a key.
pub uninterp spec fn hmac_sha1_of(key: Seq<u8>, msg: Seq<u8>) -> Seq<u8>;

/// An HMAC-SHA1 computation that is fed piece by piece and can be read at any
/// point: `hmac::Hmac<sha1::Sha1>`.
#[verifier::external_body]
pub struct RollingMac {
    inner: hmac::Hmac<sha1::Sha1>,
}

/// The key of a running HMAC-SHA1 computation.
pub uninterp spec fn mac_key(mac: RollingMac) -> Seq<u8>;

/// Everything a running HMAC-SHA1 computation has been fed so far.
pub uninterp spec fn mac_fed(mac: RollingMac) -> Seq<u8>;

/// `Hmac::<Sha1>::new_from_slice`, which accepts a key of any length: a
/// computation under that key that has been fed nothing.
#[verifier::external_body]
pub(crate) fn mac_new(key: &[u8]) -> (r: RollingMac)
    ensures
        mac_key(r) == key@,
        mac_fed(r) == Seq::<u8>::empty(),
{
    RollingMac { inner: <hmac::Hmac<sha1::Sha1> as Mac>::new_from_slice(key).unwrap() }
}

/// `Mac::update`: feeds more bytes; the key stays.
#[verifier::external_body]
pub(crate) fn mac_update(mac: &mut RollingMac, data: &[u8])
    ensures
        mac_key(*final(mac)) == mac_key(*old(mac)),
        mac_fed(*final(mac)) == mac_fed(*old(mac)) + data@,
{
    mac.inner.update(data)
}

/// `Mac::finalize` on a copy: the HMAC-SHA1 of what has been fed, twenty bytes.
#[verifier::external_body]
pub(crate) fn mac_value(mac: &RollingMac) -> (r: Vec<u8>)
    ensures
        r@ == hmac_sha1_of(mac_key(*mac), mac_fed(*mac)),
        r@.len() == 20,
{
    mac.inner.clone().finalize().into_bytes().to_vec()
}

// ---------------------------------------------------------------------------
// Ciphers
// ---------------------------------------------------------------------------

/// The longest message that both AEAD ciphers accept.
pub const AEAD_MAX: u64 = 0x10_0000_0000;

/// One block encrypted with AES-128.
pub uninterp spec fn aes128_block_of(key: Seq<u8>, block: Seq<u8>) -> Seq<u8>;

/// `aes::Aes128` with `BlockEncrypt::encrypt_block`: one block of sixteen
/// bytes that depends on key and block alone. Both must have sixteen bytes,
/// or the conversion to the cipher's array types panics.
#[verifier::external_body]
pub(crate) fn aes128_block(key: &[u8], block: &[u8]) -> (r: Vec<u8>)
    requires
        key@.len() == 16,
        block@.len() == 16,
    ensures
        r@ == aes128_block_of(key@, block@),
        r@.len() == 16,
{
    let mut out = aes::Block::clone_from_slice(block);
    aes::Aes128::new_from_slice(key).unwrap().encrypt_block(&mut out);
    out.to_vec()
}

/// What AES-128-GCM makes of a message: the ciphertext and behind it the tag.
pub uninterp spec fn gcm_sealed(key: Seq<u8>, nonce: Seq<u8>, aad: Seq<u8>, msg: Seq<u8>) -> Option<
    Seq<u8>,
>;

/// What AES-128-GCM makes of a sealed message: the message, if the tag fits.
pub uninterp spec fn gcm_opened(key: Seq<u8>, nonce: Seq<u8>, aad: Seq<u8>, sealed: Seq<u8>) -> Option<
    Seq<u8>,
>;

/// `aes_gcm::Aes128Gcm` with `Aead::encrypt`: depends on its arguments alone,
/// adds a tag of sixteen bytes, fails only on input that is too long, and is
/// undone by decryption. Key and nonce must have the cipher's sizes.
#[verifier::external_body]
pub(crate) fn gcm_seal(key: &[u8], nonce: &[u8], aad: &[u8], msg: &[u8]) -> (r: Option<Vec<u8>>)
    requires
        key@.len() == 16,
        nonce@.len() == 12,
    ensures
        r is Some == gcm_sealed(key@, nonce@, aad@, msg@) is Some,
        r matches Some(c) ==> gcm_sealed(key@, nonce@, aad@, msg@) == Some(c@),
        r matches Some(c) ==> c@.len() == msg@.len() + 16,
        r matches Some(c) ==> gcm_opened(key@, nonce@, aad@, c@) == Some(msg@),
        msg@.len() <= AEAD_MAX && aad@.len() <= AEAD_MAX ==> r is Some,
{
    let cipher = aes_gcm::Aes128Gcm::new_from_slice(key).unwrap();
    let payload = aes_gcm::aead::Payload { msg, aad };
    cipher.encrypt(aes_gcm::Nonce::from_slice(nonce), payload).ok()
}

/// `aes_gcm::Aes128Gcm` with `Aead::decrypt`: depends on its arguments alone
/// and takes off a tag of sixteen bytes. Key and nonce must have the cipher's
/// sizes.
#[verifier::external_body]
pub(crate) fn gcm_open(key: &[u8], nonce: &[u8], aad: &[u8], sealed: &[u8]) -> (r: Option<Vec<u8>>)
    requires
        key@.len() == 16,
        nonce@.len() == 12,
    ensures
        r is Some == gcm_opened(key@, nonce@, aad@, sealed@) is Some,
        r matches Some(m) ==> gcm_opened(key@, nonce@, aad@, sealed@) == Some(m@),
        r matches Some(m) ==> m@.len() + 16 == sealed@.len(),
{
    let cipher = aes_gcm::Aes128Gcm::new_from_slice(key).unwrap();
    let payload = aes_gcm::aead::Payload { msg: sealed, aad };
    cipher.decrypt(aes_gcm::Nonce::from_slice(nonce), payload).ok()
}

/// What ChaCha20-Poly1305 makes of a message: the ciphertext and behind it
/// the tag.
pub uninterp spec fn chacha_sealed(key: Seq<u8>, nonce: Seq<u8>, msg: Seq<u8>) -> Option<Seq<u8>>;

/// What ChaCha20-Poly1305 makes of a sealed message: the message, if the tag
/// fits.
pub uninterp spec fn chacha_opened(key: Seq<u8>, nonce: Seq<u8>, sealed: Seq<u8>) -> Option<Seq<u8>>;

/// `chacha20poly1305::ChaCha20Poly1305` with `Aead::encrypt` and no associated
/// data: depends on its arguments alone, adds a tag of sixteen bytes, fails
/// only on input that is too long, and is undone by decryption. Key and nonce
/// must have the cipher's sizes.
#[verifier::external_body]
pub(crate) fn chacha_seal(key: &[u8], nonce: &[u8], msg: &[u8]) -> (r: Option<Vec<u8>>)
    requires
        key@.len() == 32,
        nonce@.len() == 12,
    ensures
        r is Some == chacha_sealed(key@, nonce@, msg@) is Some,
        r matches Some(c) ==> chacha_sealed(key@, nonce@, msg@) == Some(c@),
        r matches Some(c) ==> c@.len() == msg@.len() + 16,
        r matches Some(c) ==> chacha_opened(key@, nonce@, c@) == Some(msg@),
        msg@.len() <= AEAD_MAX ==> r is Some,
{
    let cipher = chacha20poly1305::ChaCha20Poly1305::new_from_slice(key).unwrap();
    cipher.encrypt(chacha20poly1305::Nonce::from_slice(nonce), msg).ok()
}

/// `chacha20poly1305::ChaCha20Poly1305` with `Aead::decrypt` and no associated
/// data: depends on its arguments alone and takes off a tag of sixteen bytes.
/// Key and nonce must have the cipher's sizes.
#[verifier::external_body]
pub(crate) fn chacha_open(key: &[u8], nonce: &[u8], sealed: &[u8]) -> (r: Option<Vec<u8>>)
    requires
        key@.len() == 32,
        nonce@.len() == 12,
    ensures
        r is Some == chacha_opened(key@, nonce@, sealed@) is Some,
        r matches Some(m) ==> chacha_opened(key@, nonce@, sealed@) == Some(m@),
        r matches Some(m) ==> m@.len() + 16 == sealed@.len(),
{
    let cipher = chacha20poly1305::ChaCha20Poly1305::new_from_slice(key).unwrap();
    cipher.decrypt(chacha20poly1305::Nonce::from_slice(nonce), sealed).ok()
}

// ---------------------------------------------------------------------------
// Encodings
// ---------------------------------------------------------------------------

/// The lower-case hexadecimal digit of a value below sixteen.
pub open spec fn hex_digit(v: nat) -> char {
    if v < 10 {
        (v + '0' as u32) as char
    } else {
        (v - 10 + 'a' as u32) as char
    }
}

/// Bytes in lower-case hexadecimal, two digits each.
pub open spec fn hex_text(bytes: Seq<u8>) -> Seq<char> {
    Seq::new(
        2 * bytes.len(),
        |i: int|
            if i % 2 == 0 {
                hex_digit((bytes[i / 2] / 16) as nat)
            } else {
                hex_digit((bytes[i / 2] % 16) as nat)
            },
    )
}

/// `hex::encode`: two lower-case digits for each byte, the high one first.
#[verifier::external_body]
pub(crate) fn hex_encode(bytes: &[u8]) -> (r: String)
    ensures
        r@ == hex_text(bytes@),
{
    hex::encode(bytes)
}

/// The value of an ASCII hexadecimal digit of either case.
pub open spec fn hex_nibble(b: u8) -> Option<nat> {
    if 48 <= b <= 57 {
        Some((b - 48) as nat)
    } else if 65 <= b <= 70 {
        Some((b - 55) as nat)
    } else if 97 <= b <= 102 {
        Some((b - 87) as nat)
    } else {
        None
    }
}

/// The text is an even number of hexadecimal digits.
pub open spec fn is_hex(text: Seq<u8>) -> bool {
    text.len() % 2 == 0 && forall|i: int|
        0 <= i < text.len() ==> #[trigger] hex_nibble(text[i]) is Some
}

/// The bytes that hexadecimal digits write, two digits to a byte.
pub open spec fn hex_bytes(text: Seq<u8>) -> Seq<u8> {
    Seq::new(
        text.len() / 2,
        |i: int| (hex_nibble(text[2 * i])->0 * 16 + hex_nibble(text[2 * i + 1])->0) as u8,
    )
}

/// What is said of a text that is not hexadecimal.
pub uninterp spec fn hex_complaint(text: Seq<u8>) -> Seq<char>;

/// `hex::decode`: the bytes that the text writes, if it is an even number of
/// hexadecimal digits of either case, and otherwise an error whose text
/// depends on the input alone.
#[verifier::external_body]
pub(crate) fn hex_decode(text: &[u8]) -> (r: Result<Vec<u8>, String>)
    ensures
        r is Ok == is_hex(text@),
        r matches Ok(v) ==> v@ == hex_bytes(text@),
        r matches Err(e) ==> e@ == hex_complaint(text@),
{
    hex::decode(text).map_err(|e| e.to_string())
}

/// The digit of a value below 64 in Base64, in the standard alphabet or the
/// URL-safe one.
pub open spec fn base64_digit(v: int, url_safe: bool) -> u8 {
    if v < 26 {
        (65 + v) as u8
    } else if v < 52 {
        (71 + v) as u8
    } else if v < 62 {
        (v - 4) as u8
    } else if v == 62 {
        if url_safe {
            45
        } else {
            43
        }
    } else {
        if url_safe {
            95
        } else {
            47
        }
    }
}

/// A byte, or zero behind the end.
pub open spec fn byte_or_zero(bytes: Seq<u8>, k: int) -> int {
    if 0 <= k < bytes.len() {
        bytes[k] as int
    } else {
        0
    }
}

/// The bits of bytes, six at a time.
pub open spec fn sextet(bytes: Seq<u8>, i: int) -> int {
    let g = i / 4 * 3;
    if i % 4 == 0 {
        byte_or_zero(bytes, g) / 4
    } else if i % 4 == 1 {
        byte_or_zero(bytes, g) % 4 * 16 + byte_or_zero(bytes, g + 1) / 16
    } else if i % 4 == 2 {
        byte_or_zero(bytes, g + 1) % 16 * 4 + byte_or_zero(bytes, g + 2) / 64
    } else {
        byte_or_zero(bytes, g + 2) % 64
    }
}

/// Bytes in unpadded Base64: as many digits as their bits need.
pub open spec fn base64_digits(bytes: Seq<u8>, url_safe: bool) -> Seq<u8> {
    Seq::new(
        ((8 * bytes.len() + 5) / 6) as nat,
        |i: int| base64_digit(sextet(bytes, i), url_safe),
    )
}

/// Bytes in padded standard Base64: `=` fills the last group of four.
pub open spec fn base64_code(bytes: Seq<u8>) -> Seq<u8> {
    base64_digits(bytes, false) + Seq::new(((3 - bytes.len() % 3) % 3) as nat, |i: int| 61u8)
}

/// Bytes in padded standard Base64, as text.
pub open spec fn base64_text(bytes: Seq<u8>) -> Seq<char> {
    base64_code(bytes).map_values(|c: u8| c as char)
}

/// A digit tells its value, and is no padding.
proof fn lemma_base64_digit(v: int, w: int, url_safe: bool)
    requires
        0 <= v < 64,
        0 <= w < 64,
    ensures
        base64_digit(v, url_safe) == base64_digit(w, url_safe) ==> v == w,
        base64_digit(v, url_safe) != 61,
{
}

/// Digits tell the bytes that they write.
proof fn lemma_base64_digits(a: Seq<u8>, b: Seq<u8>, url_safe: bool)
    requires
        base64_digits(a, url_safe) == base64_digits(b, url_safe),
    ensures
        a == b,
{
    let x = base64_digits(a, url_safe);
    let y = base64_digits(b, url_safe);
    assert(x.len() == y.len());
    assert(a.len() == b.len());
    assert forall|i: int| 0 <= i < x.len() implies #[trigger] sextet(a, i) == sextet(b, i) by {
        assert(x[i] == y[i]);
        lemma_base64_digit(sextet(a, i), sextet(b, i), url_safe);
    }
    assert forall|k: int| 0 <= k < a.len() implies a[k] == b[k] by {
        let g = k / 3;
        assert(sextet(a, 4 * g) == sextet(b, 4 * g));
        assert(sextet(a, 4 * g + 1) == sextet(b, 4 * g + 1));
        if k % 3 == 1 {
            assert(sextet(a, 4 * g + 2) == sextet(b, 4 * g + 2));
        }
        if k % 3 == 2 {
            assert(sextet(a, 4 * g + 2) == sextet(b, 4 * g + 2));
            assert(sextet(a, 4 * g + 3) == sextet(b, 4 * g + 3));
        }
    }
    assert(a =~= b);
}

/// A padded text tells the bytes that it writes.
proof fn lemma_base64_code(a: Seq<u8>, b: Seq<u8>)
    requires
        base64_code(a) == base64_code(b),
    ensures
        a == b,
{
    let x = base64_digits(a, false);
    let y = base64_digits(b, false);
    if x.len() < y.len() {
        assert(base64_code(a)[x.len() as int] == 61);
        lemma_base64_digit(sextet(b, x.len() as int), 0, false);
        assert(base64_code(b)[x.len() as int] == y[x.len() as int]);
    }
    if y.len() < x.len() {
        assert(base64_code(b)[y.len() as int] == 61);
        lemma_base64_digit(sextet(a, y.len() as int), 0, false);
        assert(base64_code(a)[y.len() as int] == x[y.len() as int]);
    }
    assert(x =~= base64_code(a).take(x.len() as int));
    assert(y =~= base64_code(b).take(y.len() as int));
    lemma_base64_digits(a, b, false);
}

/// What is written in Base64 is read back, in either form, and a padded text
/// is no URL-safe one.
pub proof fn lemma_base64_round_trip(bytes: Seq<u8>)
    ensures
        base64_standard_bytes(base64_code(bytes)) == Some(bytes),
        base64_url_bytes(base64_digits(bytes, true)) == Some(bytes),
        bytes.len() % 3 != 0 ==> base64_url_bytes(base64_code(bytes)) == None::<Seq<u8>>,
{
    let code = base64_code(bytes);
    assert(exists|b: Seq<u8>| #[trigger] base64_code(b) == code);
    let b = choose|b: Seq<u8>| #[trigger] base64_code(b) == code;
    lemma_base64_code(b, bytes);
    let digits = base64_digits(bytes, true);
    assert(exists|b: Seq<u8>| #[trigger] base64_digits(b, true) == digits);
    let b = choose|b: Seq<u8>| #[trigger] base64_digits(b, true) == digits;
    lemma_base64_digits(b, bytes, true);
    if bytes.len() % 3 != 0 {
        assert forall|b: Seq<u8>| #[trigger] base64_digits(b, true) != code by {
            let last = code.len() - 1;
            assert(code[last] == 61);
            if base64_digits(b, true) == code {
                lemma_base64_digit(sextet(b, last), 0, true);
                assert(base64_digits(b, true)[last] == base64_digit(sextet(b, last), true));
            }
        }
    }
}

/// `base64::engine::general_purpose::STANDARD.encode`: the bytes in padded
/// standard Base64.
#[verifier::external_body]
pub(crate) fn base64_encode(bytes: &[u8]) -> (r: String)
    ensures
        r@ == base64_text(bytes@),
{
    base64::engine::general_purpose::STANDARD.encode(bytes)
}

/// The bytes that a text writes in padded standard Base64, if it is such.
pub open spec fn base64_standard_bytes(text: Seq<u8>) -> Option<Seq<u8>> {
    if exists|b: Seq<u8>| #[trigger] base64_code(b) == text {
        Some(choose|b: Seq<u8>| #[trigger] base64_code(b) == text)
    } else {
        None
    }
}

/// `base64::engine::general_purpose::STANDARD.decode`: the bytes of a padded
/// text. It refuses every text that encoding does not make: a digit of
/// another alphabet, padding that is missing or misplaced, bits that are set
/// behind the last byte.
#[verifier::external_body]
pub(crate) fn base64_standard_decode(text: &[u8]) -> (r: Option<Vec<u8>>)
    ensures
        r is Some == base64_standard_bytes(text@) is Some,
        r matches Some(v) ==> base64_standard_bytes(text@) == Some(v@),
{
    base64::engine::general_purpose::STANDARD.decode(text).ok()
}

/// The bytes that a text writes in unpadded URL-safe Base64, if it is such.
pub open spec fn base64_url_bytes(text: Seq<u8>) -> Option<Seq<u8>> {
    if exists|b: Seq<u8>| #[trigger] base64_digits(b, true) == text {
        Some(choose|b: Seq<u8>| #[trigger] base64_digits(b, true) == text)
    } else {
        None
    }
}

/// `base64::engine::general_purpose::URL_SAFE_NO_PAD.decode`: the bytes of an
/// unpadded URL-safe text. It refuses every text that encoding does not make:
/// a digit of another alphabet, padding, bits that are set behind the last
/// byte.
#[verifier::external_body]
pub(crate) fn base64_url_decode(text: &[u8]) -> (r: Option<Vec<u8>>)
    ensures
        r is Some == base64_url_bytes(text@) is Some,
        r matches Some(v) ==> base64_url_bytes(text@) == Some(v@),
{
    base64::engine::general_purpose::URL_SAFE_NO_PAD.decode(text).ok()
}

// ---------------------------------------------------------------------------
// Identifiers
// ---------------------------------------------------------------------------

/// The text without the four hyphens of a hyphenated identifier.
pub open spec fn unhyphenated(t: Seq<u8>) -> Option<Seq<u8>> {
    if t[8] == 45 && t[13] == 45 && t[18] == 45 && t[23] == 45 {
        Some(
            t.take(8) + t.subrange(9, 13) + t.subrange(14, 18) + t.subrange(19, 23) + t.subrange(
                24,
                36,
            ),
        )
    } else {
        None
    }
}

/// One ASCII letter in lower case; any other byte unchanged.
pub open spec fn lower_byte(b: u8) -> u8 {
    if 65 <= b <= 90 {
        (b + 32) as u8
    } else {
        b
    }
}

/// The digits of an identifier: 32 characters, or hyphenated, and then also
/// in braces or behind `urn:uuid:` in any case.
pub open spec fn uuid_digits(t: Seq<u8>) -> Option<Seq<u8>> {
    if t.len() == 32 {
        Some(t)
    } else if t.len() == 36 {
        unhyphenated(t)
    } else if t.len() == 38 && t[0] == 123 && t[37] == 125 {
        unhyphenated(t.subrange(1, 37))
    } else if t.len() == 45 && t.take(9).map_values(|b: u8| lower_byte(b)) == seq![
        117u8,
        114u8,
        110u8,
        58u8,
        117u8,
        117u8,
        105u8,
        100u8,
        58u8,
    ] {
        unhyphenated(t.skip(9))
    } else {
        None
    }
}

/// The sixteen bytes that an identifier writes.
pub open spec fn uuid_of(t: Seq<u8>) -> Option<Seq<u8>> {
    match uuid_digits(t) {
        Some(d) => if is_hex(d) {
            Some(hex_bytes(d))
        } else {
            None
        },
        None => None,
    }
}

/// What is said of a text that is not an identifier.
pub uninterp spec fn uuid_complaint(text: Seq<char>) -> Seq<char>;

/// `uuid::Uuid::parse_str`: the bytes of an identifier in one of its four
/// forms, and otherwise an error whose text depends on the input alone.
#[verifier::external_body]
pub(crate) fn parse_uuid(text: &str) -> (r: Result<[u8; 16], String>)
    ensures
        r is Ok == uuid_of(text.spec_bytes()) is Some,
        r matches Ok(id) ==> uuid_of(text.spec_bytes()) == Some(id@),
        r matches Err(e) ==> e@ == uuid_complaint(text@),
{
    uuid::Uuid::parse_str(text).map(|id| *id.as_bytes()).map_err(|e| e.to_string())
}

// ---------------------------------------------------------------------------
// Chance
// ---------------------------------------------------------------------------

/// `rand::rng` with `RngCore::fill_bytes`: as many bytes as asked for.
/// What they are is left to chance.
#[verifier::external_body]
pub(crate) fn random_bytes(n: usize) -> (r: Vec<u8>)
    ensures
        r@.len() == n,
{
    let mut out = vec![0u8; n];
    rand::RngCore::fill_bytes(&mut rand::rng(), &mut out);
    out
}

} // verus!
