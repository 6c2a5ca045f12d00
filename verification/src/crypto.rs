//! Folder-key encryption: AES-256-GCM content encryption with a random
//! nonce, SHA-256 key derivation, and base64 key wrapping.
//!
//! The ciphers, the hash and the base64 coding come from outside crates. The
//! results of the hash and the cipher are named below (`sha256`,
//! `aes256gcm_seal`, `aes256gcm_open`); base64 is stated in full
//! (`base64_encode`, `base64_decode`). Every function of this module states
//! its result over these.
use vstd::prelude::*;
use vstd::string::*;
use vstd::utf8::*;
use crate::text::{decimal, digit_char, push_decimal, push_str, starts_with, string_from_str};
use aes_gcm::aead::Aead;
use aes_gcm::aead::KeyInit;
use aes_gcm::{Aes256Gcm, Key, Nonce};
use base64::engine::general_purpose::STANDARD;
use base64::Engine;
use rand::RngCore;
use sha2::{Digest, Sha256};

verus! {

/// Longest plaintext that AES-GCM accepts (2^36 bytes).
pub const AES_GCM_MAX_PLAINTEXT: u64 = 68719476736;

/// Length of the nonce that starts every ciphertext produced here.
pub const NONCE_LEN: usize = 12;

/// Length of the authentication tag that AES-GCM appends.
pub const TAG_LEN: usize = 16;

// ---------------------------------------------------------------------------
// Names for what the outside functions compute
// ---------------------------------------------------------------------------

/// The SHA-256 digest of `data`.
pub uninterp spec fn sha256(data: Seq<u8>) -> Seq<u8>;

/// AES-256-GCM encryption of `plaintext` under `key` and `nonce`, without
/// associated data: ciphertext followed by the tag.
pub uninterp spec fn aes256gcm_seal(key: Seq<u8>, nonce: Seq<u8>, plaintext: Seq<u8>) -> Seq<u8>;

/// AES-256-GCM decryption of `ciphertext` (tag at the end) under `key` and
/// `nonce`; `None` when authentication fails.
pub uninterp spec fn aes256gcm_open(key: Seq<u8>, nonce: Seq<u8>, ciphertext: Seq<u8>) -> Option<
    Seq<u8>,
>;

// ---------------------------------------------------------------------------
// Base64
// ---------------------------------------------------------------------------

/// The character of a 6-bit value in the standard base64 alphabet:
/// `A`-`Z`, `a`-`z`, `0`-`9`, `+`, `/`.
pub open spec fn base64_char(n: int) -> char {
    if n < 26 {
        (65 + n) as char
    } else if n < 52 {
        (71 + n) as char
    } else if n < 62 {
        (n - 4) as char
    } else if n == 62 {
        '+'
    } else {
        '/'
    }
}

/// Standard base64 of `data` with padding: each group of three bytes becomes
/// four characters of six bits each; a last group of one or two bytes is
/// filled with zero bits and padded with `=` to four characters.
pub open spec fn base64_encode(data: Seq<u8>) -> Seq<char>
    decreases data.len(),
{
    if data.len() == 0 {
        Seq::empty()
    } else {
        let b0 = data[0] as int;
        let b1 = if data.len() > 1 {
            data[1] as int
        } else {
            0
        };
        let b2 = if data.len() > 2 {
            data[2] as int
        } else {
            0
        };
        let c0 = base64_char(b0 / 4);
        let c1 = base64_char((b0 % 4) * 16 + b1 / 16);
        let c2 = base64_char((b1 % 16) * 4 + b2 / 64);
        let c3 = base64_char(b2 % 64);
        if data.len() == 1 {
            seq![c0, c1, '=', '=']
        } else if data.len() == 2 {
            seq![c0, c1, c2, '=']
        } else {
            seq![c0, c1, c2, c3] + base64_encode(data.skip(3))
        }
    }
}

/// Standard base64 decoding with canonical padding and no stray bits: the
/// bytes whose encoding is `text`, and `None` when `text` is no encoding.
pub open spec fn base64_decode(text: Seq<char>) -> Option<Seq<u8>> {
    if exists|b: Seq<u8>| #[trigger] base64_encode(b) == text {
        Some(choose|b: Seq<u8>| #[trigger] base64_encode(b) == text)
    } else {
        None
    }
}

/// What a successful decoding gives, `base64_decode` gives.
proof fn lemma_base64_decoded(text: Seq<char>, v: Seq<u8>)
    requires
        base64_encode(v) == text,
        forall|b: Seq<u8>| #[trigger] base64_encode(b) == text ==> v == b,
    ensures
        base64_decode(text) == Some(v),
{
}

// ---------------------------------------------------------------------------
// Trusted calls
// ---------------------------------------------------------------------------

/// Calls `Sha256::digest` (sha2). The contract names the 32-byte digest.
#[verifier::external_body]
fn sha256_digest(data: &[u8]) -> (r: [u8; 32])
    ensures
        r@ == sha256(data@),
{
    Sha256::digest(data).into()
}

/// Calls `Aead::encrypt` of `Aes256Gcm` (aes-gcm) with no associated data.
/// The crate refuses exactly a plaintext longer than 2^36 bytes; otherwise the
/// result is the ciphertext followed by a 16-byte tag.
#[verifier::external_body]
fn aes_gcm_encrypt(key: &[u8; 32], nonce: &[u8; 12], data: &[u8]) -> (r: Result<Vec<u8>, ()>)
    ensures
        match r {
            Ok(c) => {
                &&& c@ == aes256gcm_seal(key@, nonce@, data@)
                &&& c@.len() == data@.len() + 16
                &&& data@.len() <= AES_GCM_MAX_PLAINTEXT
            },
            Err(_) => data@.len() > AES_GCM_MAX_PLAINTEXT,
        },
{
    Aes256Gcm::new(Key::<Aes256Gcm>::from_slice(key)).encrypt(Nonce::from_slice(nonce), data).map_err(
        |_| (),
    )
}

/// Calls `Aead::decrypt` of `Aes256Gcm` (aes-gcm) with no associated data.
/// A successful plaintext is the ciphertext without its 16-byte tag, so it is
/// 16 bytes shorter. Besides naming the result, the contract states AES-GCM's
/// correctness: a
/// ciphertext that `aes256gcm_seal` produced from an accepted plaintext under
/// the same key and nonce decrypts to that plaintext. That a wrong key fails is
/// not stated (it holds only with overwhelming probability).
#[verifier::external_body]
fn aes_gcm_decrypt(key: &[u8; 32], nonce: &[u8; 12], ciphertext: &[u8]) -> (r: Result<
    Vec<u8>,
    (),
>)
    ensures
        match r {
            Ok(q) => {
                &&& aes256gcm_open(key@, nonce@, ciphertext@) == Some(q@)
                &&& ciphertext@.len() >= 16
                &&& q@.len() == ciphertext@.len() - 16
                &&& forall|p: Seq<u8>|
                    p.len() <= AES_GCM_MAX_PLAINTEXT && #[trigger] aes256gcm_seal(key@, nonce@, p)
                        == ciphertext@ ==> p == q@
            },
            Err(_) => {
                &&& aes256gcm_open(key@, nonce@, ciphertext@) is None
                &&& forall|p: Seq<u8>|
                    p.len() <= AES_GCM_MAX_PLAINTEXT ==> #[trigger] aes256gcm_seal(key@, nonce@, p)
                        != ciphertext@
            },
        },
{
    Aes256Gcm::new(Key::<Aes256Gcm>::from_slice(key)).decrypt(Nonce::from_slice(nonce), ciphertext).map_err(
        |_| (),
    )
}

/// Calls `RngCore::fill_bytes` on `rand::thread_rng()`. Nothing is promised of
/// the bytes: they are random.
#[verifier::external_body]
fn fill_random<const N: usize>(buf: &mut [u8; N]) {
    rand::thread_rng().fill_bytes(buf);
}

/// Calls `Engine::encode` of base64's `STANDARD` engine. The crate panics when
/// the encoded length overflows `usize`; the `requires` keeps well below that.
#[verifier::external_body]
fn base64_encode_bytes(data: &[u8]) -> (r: String)
    requires
        data@.len() <= usize::MAX / 2,
    ensures
        r@ == base64_encode(data@),
{
    STANDARD.encode(data)
}

/// Calls `Engine::decode` of base64's `STANDARD` engine (canonical padding
/// required, no trailing bits): it accepts exactly the texts that are the
/// encoding of some bytes, and gives back those bytes. The error text is the
/// decode error's `Display` and is not stated.
#[verifier::external_body]
fn base64_decode_text(text: &str) -> (r: Result<Vec<u8>, String>)
    ensures
        match r {
            Ok(v) => {
                &&& base64_encode(v@) == text@
                &&& forall|b: Seq<u8>| #[trigger] base64_encode(b) == text@ ==> v@ == b
            },
            Err(_) => forall|b: Seq<u8>| #[trigger] base64_encode(b) != text@,
        },
{
    STANDARD.decode(text).map_err(|e| e.to_string())
}

/// Lower-case hexadecimal of bytes, two digits per byte.
pub open spec fn hex_lower(data: Seq<u8>) -> Seq<char>
    decreases data.len(),
{
    if data.len() == 0 {
        Seq::empty()
    } else {
        hex_lower(data.drop_last()) + seq![
            digit_char((data.last() / 16) as nat),
            digit_char((data.last() % 16) as nat),
        ]
    }
}

/// Calls `hex::encode`, which writes each byte as two lower-case hex digits.
#[verifier::external_body]
fn hex_encode(data: &[u8]) -> (r: String)
    ensures
        r@ == hex_lower(data@),
{
    hex::encode(data)
}

// ---------------------------------------------------------------------------
// Specifications of this module's results
// ---------------------------------------------------------------------------

/// The UTF-8 bytes of a string.
pub open spec fn utf8(s: Seq<char>) -> Seq<u8> {
    encode_utf8(s)
}

/// Domain prefix hashed before a passphrase.
pub open spec fn keywrap_domain() -> Seq<u8> {
    utf8("sheldrive-keywrap-v1:"@)
}

/// Domain prefix hashed before the two parties of a share.
pub open spec fn share_domain() -> Seq<u8> {
    utf8("sheldrive-share-v1:"@)
}

/// The 256-bit key derived from a passphrase or private key.
pub open spec fn wrapping_key(passphrase: Seq<char>) -> Seq<u8> {
    sha256(keywrap_domain() + utf8(passphrase))
}

/// The 256-bit key shared between `first` and `second`.
pub open spec fn share_key(first: Seq<char>, second: Seq<char>) -> Seq<u8> {
    sha256(share_domain() + utf8(first) + utf8(":"@) + utf8(second))
}

/// The address that a private key stands for: hex of the first 20 bytes of
/// its SHA-256.
pub open spec fn address_of(private_key: Seq<char>) -> Seq<char> {
    hex_lower(sha256(utf8(private_key)).take(20))
}

/// `out` is the encryption of `data` under `key`: a 12-byte nonce, then the
/// AES-GCM ciphertext and tag of `data` under that nonce.
pub open spec fn sealed(key: Seq<u8>, data: Seq<u8>, out: Seq<u8>) -> bool {
    &&& out.len() == 12 + data.len() + 16
    &&& out.skip(12) == aes256gcm_seal(key, out.take(12), data)
}

/// Text of the error for a plaintext that AES-GCM refuses.
pub open spec fn encrypt_error() -> Seq<char> {
    "Encrypt error: aead::Error"@
}

/// Text of the error for input shorter than a nonce.
pub open spec fn short_input_error() -> Seq<char> {
    "Data too short to contain nonce"@
}

/// Text of the error for a ciphertext that does not authenticate.
pub open spec fn decrypt_error() -> Seq<char> {
    "Decrypt error: aead::Error"@
}

/// What `decrypt_with_key` returns for `data` under `key`.
pub open spec fn decryption(key: Seq<u8>, data: Seq<u8>) -> Result<Seq<u8>, Seq<char>> {
    if data.len() < 12 {
        Err(short_input_error())
    } else {
        match aes256gcm_open(key, data.take(12), data.skip(12)) {
            Some(p) => Ok(p),
            None => Err(decrypt_error()),
        }
    }
}

/// The view of a byte result.
pub open spec fn bytes_result(r: Result<Vec<u8>, String>) -> Result<Seq<u8>, Seq<char>> {
    match r {
        Ok(v) => Ok(v@),
        Err(e) => Err(e@),
    }
}

/// The view of a key result.
pub open spec fn key_result(r: Result<[u8; 32], String>) -> Result<Seq<u8>, Seq<char>> {
    match r {
        Ok(k) => Ok(k@),
        Err(e) => Err(e@),
    }
}

/// What unwrapping returns once the key bytes are decrypted: the key when it
/// has 32 bytes, else an error naming the length (with `hint` after it).
pub open spec fn key_from_plaintext(d: Result<Seq<u8>, Seq<char>>, hint: Seq<char>) -> Result<
    Seq<u8>,
    Seq<char>,
> {
    match d {
        Err(e) => Err(e),
        Ok(p) => if p.len() == 32 {
            Ok(p)
        } else {
            Err("Invalid key length: "@ + decimal(p.len()) + hint)
        },
    }
}

/// Text after the length in the error of `unwrap_folder_key`.
pub open spec fn expected_hint() -> Seq<char> {
    " (expected 32)"@
}

/// Text of the error prefix for undecodable base64.
pub open spec fn base64_error_prefix() -> Seq<char> {
    "Base64 decode error: "@
}

// ---------------------------------------------------------------------------
// Helpers
// ---------------------------------------------------------------------------

fn append_bytes(v: &mut Vec<u8>, b: &[u8])
    ensures
        final(v)@ == old(v)@ + b@,
{
    let ghost start = v@;
    let mut i: usize = 0;
    while i < b.len()
        invariant
            i <= b@.len(),
            v@ == start + b@.subrange(0, i as int),
        decreases b@.len() - i,
    {
        v.push(b[i]);
        i = i + 1;
        assert(v@ =~= start + b@.subrange(0, i as int));
    }
    assert(b@.subrange(0, b@.len() as int) =~= b@);
}

fn append_str_bytes(v: &mut Vec<u8>, s: &str)
    ensures
        final(v)@ == old(v)@ + utf8(s@),
{
    append_bytes(v, s.as_bytes());
}

fn share_secret(first: &str, second: &str) -> (r: [u8; 32])
    ensures
        r@ == share_key(first@, second@),
{
    let mut buf: Vec<u8> = Vec::new();
    append_str_bytes(&mut buf, "sheldrive-share-v1:");
    append_str_bytes(&mut buf, first);
    append_str_bytes(&mut buf, ":");
    append_str_bytes(&mut buf, second);
    sha256_digest(buf.as_slice())
}

fn base64_error(m: String) -> (e: String)
    ensures
        e@ == base64_error_prefix() + m@,
        starts_with(e@, base64_error_prefix()),
{
    let mut e = string_from_str("Base64 decode error: ");
    push_str(&mut e, m.as_str());
    assert((base64_error_prefix() + m@).subrange(0, base64_error_prefix().len() as int)
        =~= base64_error_prefix());
    e
}

fn copy_range(data: &[u8], a: usize, b: usize) -> (r: Vec<u8>)
    requires
        a <= b <= data@.len(),
    ensures
        r@ == data@.subrange(a as int, b as int),
{
    let mut r: Vec<u8> = Vec::new();
    let mut i = a;
    while i < b
        invariant
            a <= i <= b <= data@.len(),
            r@ == data@.subrange(a as int, i as int),
        decreases b - i,
    {
        r.push(data[i]);
        i = i + 1;
        assert(r@ =~= data@.subrange(a as int, i as int));
    }
    r
}

// ---------------------------------------------------------------------------
// Symmetric encryption
// ---------------------------------------------------------------------------

/// A random 256-bit folder key.
pub fn generate_folder_key() -> (key: [u8; 32]) {
    let mut key = [0u8; 32];
    fill_random(&mut key);
    key
}

/// Encrypts `data` under a raw 256-bit key: a fresh random 12-byte nonce,
/// then the AES-GCM ciphertext and tag. Fails only when AES-GCM refuses the
/// plaintext length.
pub fn encrypt_with_key(data: &[u8], key: &[u8; 32]) -> (r: Result<Vec<u8>, String>)
    ensures
        match r {
            Ok(out) => sealed(key@, data@, out@) && data@.len() <= AES_GCM_MAX_PLAINTEXT,
            Err(e) => data@.len() > AES_GCM_MAX_PLAINTEXT && e@ == encrypt_error(),
        },
        data@.len() <= AES_GCM_MAX_PLAINTEXT ==> r is Ok,
{
    let mut nonce = [0u8; 12];
    fill_random(&mut nonce);
    match aes_gcm_encrypt(key, &nonce, data) {
        Ok(ciphertext) => {
            let mut output: Vec<u8> = Vec::new();
            append_bytes(&mut output, &nonce);
            append_bytes(&mut output, ciphertext.as_slice());
            assert(output@.take(12) =~= nonce@);
            assert(output@.skip(12) =~= ciphertext@);
            Ok(output)
        },
        Err(_) => Err(string_from_str("Encrypt error: aead::Error")),
    }
}

/// Decrypts what `encrypt_with_key` produced: the first 12 bytes are the
/// nonce, the rest the ciphertext and tag. Whatever `encrypt_with_key`
/// produced under the same key decrypts to the original data; a successful
/// decryption is 28 bytes shorter than its input.
pub fn decrypt_with_key(data: &[u8], key: &[u8; 32]) -> (r: Result<Vec<u8>, String>)
    ensures
        bytes_result(r) == decryption(key@, data@),
        r matches Ok(m) ==> data@.len() >= 28 && m@.len() == data@.len() - 28,
        forall|p: Seq<u8>|
            p.len() <= AES_GCM_MAX_PLAINTEXT && #[trigger] sealed(key@, p, data@) ==> (r matches Ok(
                q,
            ) && q@ == p),
{
    let n = data.len();
    if n < 12 {
        return Err(string_from_str("Data too short to contain nonce"));
    }
    let mut nonce = [0u8; 12];
    let mut i: usize = 0;
    while i < 12
        invariant
            n == data@.len(),
            12 <= n,
            i <= 12,
            forall|j: int| 0 <= j < i ==> nonce@[j] == data@[j],
        decreases 12 - i,
    {
        nonce[i] = data[i];
        i = i + 1;
    }
    assert(nonce@ =~= data@.take(12));
    let ciphertext = copy_range(data, 12, n);
    assert(ciphertext@ =~= data@.skip(12));
    match aes_gcm_decrypt(key, &nonce, ciphertext.as_slice()) {
        Ok(p) => Ok(p),
        Err(_) => Err(string_from_str("Decrypt error: aead::Error")),
    }
}

// ---------------------------------------------------------------------------
// Key wrapping
// ---------------------------------------------------------------------------

/// The 256-bit wrapping key derived from a private key or passphrase.
fn derive_wrapping_key(private_key: &str) -> (r: [u8; 32])
    ensures
        r@ == wrapping_key(private_key@),
{
    let mut buf: Vec<u8> = Vec::new();
    append_str_bytes(&mut buf, "sheldrive-keywrap-v1:");
    append_str_bytes(&mut buf, private_key);
    assert(buf@ =~= keywrap_domain() + utf8(private_key@));
    sha256_digest(buf.as_slice())
}

/// Turns decrypted key bytes into a key: exactly 32 bytes are required.
pub fn folder_key_from_plaintext(d: Vec<u8>, hint: &str) -> (r: Result<[u8; 32], String>)
    ensures
        key_result(r) == key_from_plaintext(Ok(d@), hint@),
{
    if d.len() != 32 {
        let mut e = string_from_str("Invalid key length: ");
        push_decimal(&mut e, d.len() as u64);
        push_str(&mut e, hint);
        return Err(e);
    }
    let mut key = [0u8; 32];
    let mut i: usize = 0;
    while i < 32
        invariant
            d@.len() == 32,
            i <= 32,
            forall|j: int| 0 <= j < i ==> key@[j] == d@[j],
        decreases 32 - i,
    {
        key[i] = d[i];
        i = i + 1;
    }
    assert(key@ =~= d@);
    Ok(key)
}

/// Wraps a folder key for storage under the owner's private key: the
/// encryption of the key under `wrapping_key(private_key)`, in base64.
pub fn wrap_folder_key(folder_key: &[u8; 32], private_key: &str) -> (r: Result<String, String>)
    ensures
        r matches Ok(s) && exists|c: Seq<u8>|
            #[trigger] base64_encode(c) == s@ && sealed(wrapping_key(private_key@), folder_key@, c),
{
    let wrapping = derive_wrapping_key(private_key);
    match encrypt_with_key(folder_key, &wrapping) {
        Ok(encrypted) => {
            let s = base64_encode_bytes(encrypted.as_slice());
            assert(base64_encode(encrypted@) == s@);
            Ok(s)
        },
        Err(e) => Err(e),
    }
}

/// What `unwrap_folder_key` returns for a given base64 text, except the text
/// of a base64 error.
pub open spec fn unwrapping(encrypted_key_b64: Seq<char>, private_key: Seq<char>) -> Option<
    Result<Seq<u8>, Seq<char>>,
> {
    match base64_decode(encrypted_key_b64) {
        None => None,
        Some(c) => Some(
            key_from_plaintext(decryption(wrapping_key(private_key), c), expected_hint()),
        ),
    }
}

/// Unwraps a folder key wrapped by `wrap_folder_key` under the same private
/// key: base64-decodes, decrypts under `wrapping_key(private_key)`, and
/// requires 32 bytes.
pub fn unwrap_folder_key(encrypted_key_b64: &str, private_key: &str) -> (r: Result<[u8; 32], String>)
    ensures
        match unwrapping(encrypted_key_b64@, private_key@) {
            Some(res) => key_result(r) == res,
            None => r matches Err(e) && starts_with(e@, base64_error_prefix()),
        },
        forall|c: Seq<u8>, k: Seq<u8>|
            #[trigger] base64_encode(c) == encrypted_key_b64@ && k.len() == 32 && #[trigger] sealed(
                wrapping_key(private_key@),
                k,
                c,
            ) ==> (r matches Ok(key) && key@ == k),
{
    let encrypted = match base64_decode_text(encrypted_key_b64) {
        Ok(v) => {
            proof {
                lemma_base64_decoded(encrypted_key_b64@, v@);
            }
            v
        },
        Err(m) => {
            return Err(base64_error(m));
        },
    };
    let wrapping = derive_wrapping_key(private_key);
    match decrypt_with_key(encrypted.as_slice(), &wrapping) {
        Ok(d) => folder_key_from_plaintext(d, " (expected 32)"),
        Err(e) => Err(e),
    }
}

/// The address that a private key stands for.
pub fn key_address(private_key: &str) -> (r: String)
    ensures
        r@ == address_of(private_key@),
{
    let hash = sha256_digest(private_key.as_bytes());
    let head = copy_range(&hash, 0, 20);
    assert(head@ =~= sha256(utf8(private_key@)).take(20));
    hex_encode(head.as_slice())
}

/// Wraps a folder key for a recipient, with a key derived from both
/// addresses: the encryption of the key under
/// `share_key(address_of(owner_private_key), recipient_address)`, in base64.
/// The recipient unwraps it with `unwrap_shared_folder_key`, giving the
/// owner's address as the sharer.
pub fn wrap_folder_key_for_recipient(
    folder_key: &[u8; 32],
    owner_private_key: &str,
    recipient_address: &str,
) -> (r: Result<String, String>)
    ensures
        r matches Ok(s) && exists|c: Seq<u8>|
            #[trigger] base64_encode(c) == s@ && sealed(
                share_key(address_of(owner_private_key@), recipient_address@),
                folder_key@,
                c,
            ),
{
    let owner_address = key_address(owner_private_key);
    let secret = share_secret(owner_address.as_str(), recipient_address);
    match encrypt_with_key(folder_key, &secret) {
        Ok(encrypted) => {
            let s = base64_encode_bytes(encrypted.as_slice());
            assert(base64_encode(encrypted@) == s@);
            Ok(s)
        },
        Err(e) => Err(e),
    }
}

/// What `unwrap_shared_folder_key` returns for a given base64 text, except
/// the text of a base64 error.
pub open spec fn shared_unwrapping(
    encrypted_key_b64: Seq<char>,
    sharer_address: Seq<char>,
    my_private_key: Seq<char>,
) -> Option<Result<Seq<u8>, Seq<char>>> {
    match base64_decode(encrypted_key_b64) {
        None => None,
        Some(c) => Some(
            key_from_plaintext(
                decryption(share_key(sharer_address, address_of(my_private_key)), c),
                ""@,
            ),
        ),
    }
}

/// Unwraps a folder key shared with the holder of `my_private_key`: the key
/// is `share_key(sharer_address, address_of(my_private_key))`.
pub fn unwrap_shared_folder_key(
    encrypted_key_b64: &str,
    sharer_address: &str,
    my_private_key: &str,
) -> (r: Result<[u8; 32], String>)
    ensures
        match shared_unwrapping(encrypted_key_b64@, sharer_address@, my_private_key@) {
            Some(res) => key_result(r) == res,
            None => r matches Err(e) && starts_with(e@, base64_error_prefix()),
        },
        forall|c: Seq<u8>, k: Seq<u8>|
            #[trigger] base64_encode(c) == encrypted_key_b64@ && k.len() == 32 && #[trigger] sealed(
                share_key(sharer_address@, address_of(my_private_key@)),
                k,
                c,
            ) ==> (r matches Ok(key) && key@ == k),
{
    let encrypted = match base64_decode_text(encrypted_key_b64) {
        Ok(v) => {
            proof {
                lemma_base64_decoded(encrypted_key_b64@, v@);
            }
            v
        },
        Err(m) => {
            return Err(base64_error(m));
        },
    };
    let my_address = key_address(my_private_key);
    let secret = share_secret(sharer_address, my_address.as_str());
    match decrypt_with_key(encrypted.as_slice(), &secret) {
        Ok(d) => folder_key_from_plaintext(d, ""),
        Err(e) => Err(e),
    }
}

// ---------------------------------------------------------------------------
// Passphrase API
// ---------------------------------------------------------------------------

/// Encrypts `data` under the key derived from `passphrase`.
pub fn encrypt(data: &[u8], passphrase: &str) -> (r: Result<Vec<u8>, String>)
    ensures
        match r {
            Ok(out) => sealed(wrapping_key(passphrase@), data@, out@) && data@.len()
                <= AES_GCM_MAX_PLAINTEXT,
            Err(e) => data@.len() > AES_GCM_MAX_PLAINTEXT && e@ == encrypt_error(),
        },
        data@.len() <= AES_GCM_MAX_PLAINTEXT ==> r is Ok,
{
    let key = derive_wrapping_key(passphrase);
    encrypt_with_key(data, &key)
}

/// Decrypts what `encrypt` produced under the same passphrase.
pub fn decrypt(data: &[u8], passphrase: &str) -> (r: Result<Vec<u8>, String>)
    ensures
        bytes_result(r) == decryption(wrapping_key(passphrase@), data@),
        r matches Ok(m) ==> data@.len() >= 28 && m@.len() == data@.len() - 28,
        forall|p: Seq<u8>|
            p.len() <= AES_GCM_MAX_PLAINTEXT && #[trigger] sealed(wrapping_key(passphrase@), p, data@)
                ==> (r matches Ok(q) && q@ == p),
{
    let key = derive_wrapping_key(passphrase);
    decrypt_with_key(data, &key)
}

// ---------------------------------------------------------------------------
// Content sealing for upload and download
// ---------------------------------------------------------------------------

/// The bytes of content that the network returned in base64: the decoded
/// bytes, or no bytes when the text is not base64.
pub open spec fn retrieved(content_b64: Seq<char>) -> Seq<u8> {
    match base64_decode(content_b64) {
        Some(v) => v,
        None => Seq::empty(),
    }
}

/// Decodes content retrieved from the network; text that is not base64
/// gives no bytes.
pub fn retrieved_bytes(content_b64: &str) -> (r: Vec<u8>)
    ensures
        r@ == retrieved(content_b64@),
{
    match base64_decode_text(content_b64) {
        Ok(v) => {
            proof {
                lemma_base64_decoded(content_b64@, v@);
            }
            v
        },
        Err(_) => Vec::new(),
    }
}

/// The base64 text under which content is pinned to the network.
pub fn pin_payload(content: &[u8]) -> (r: String)
    requires
        content@.len() <= usize::MAX / 2,
    ensures
        r@ == base64_encode(content@),
{
    base64_encode_bytes(content)
}

/// The identifier under which content that could not be pinned is cached
/// on Windows: `local:` and the hex of the first 16 bytes of the SHA-256 of
/// the path's UTF-8 bytes.
pub open spec fn hashed_local_cid_text(path: Seq<char>) -> Seq<char> {
    "local:"@ + hex_lower(sha256(utf8(path)).take(16))
}

/// The local identifier, by SHA-256, of content that could not be pinned.
pub fn hashed_local_cid(path: &str) -> (r: String)
    ensures
        r@ == hashed_local_cid_text(path@),
{
    let hash = sha256_digest(path.as_bytes());
    let head = copy_range(&hash, 0, 16);
    assert(head@ =~= sha256(utf8(path@)).take(16));
    let hex = hex_encode(head.as_slice());
    let mut s = string_from_str("local:");
    push_str(&mut s, hex.as_str());
    s
}

/// The view of an optional string slice.
pub open spec fn opt_str(o: Option<&str>) -> Option<Seq<char>> {
    match o {
        Some(s) => Some(s@),
        None => None,
    }
}

/// The key that unwraps from a folder's wrapped key, if any.
pub open spec fn unwrapped_key(folder_key_b64: Seq<char>, private_key: Seq<char>) -> Option<Seq<u8>> {
    match unwrapping(folder_key_b64, private_key) {
        Some(Ok(k)) => Some(k),
        _ => None,
    }
}

/// `up` is what is uploaded for `content`: encrypted under the folder key
/// when the folder has a wrapped key that unwraps under the private key;
/// under the private key's passphrase key when the folder has no wrapped
/// key; the content itself otherwise or when AES-GCM refuses its length.
pub open spec fn uploaded(
    content: Seq<u8>,
    folder_key_b64: Option<Seq<char>>,
    private_key: Option<Seq<char>>,
    up: Seq<u8>,
) -> bool {
    match (folder_key_b64, private_key) {
        (Some(fk), Some(pk)) => match unwrapped_key(fk, pk) {
            Some(k) => if content.len() <= AES_GCM_MAX_PLAINTEXT {
                sealed(k, content, up)
            } else {
                up == content
            },
            None => up == content,
        },
        (None, Some(pk)) => if content.len() <= AES_GCM_MAX_PLAINTEXT {
            sealed(wrapping_key(pk), content, up)
        } else {
            up == content
        },
        _ => up == content,
    }
}

/// The bytes to upload for `content` in a folder with the given wrapped key,
/// under the given private key.
pub fn upload_payload(content: &[u8], folder_key_b64: Option<&str>, private_key: Option<&str>) -> (r: Vec<u8>)
    ensures
        uploaded(
            content@,
            opt_str(folder_key_b64),
            opt_str(private_key),
            r@,
        ),
{
    match folder_key_b64 {
        Some(fk) => match private_key {
            Some(pk) => match unwrap_folder_key(fk, pk) {
                Ok(folder_key) => match encrypt_with_key(content, &folder_key) {
                    Ok(e) => e,
                    Err(_) => {
                        let r = copy_range(content, 0, content.len());
                        assert(r@ =~= content@);
                        r
                    },
                },
                Err(_) => {
                    let r = copy_range(content, 0, content.len());
                    assert(r@ =~= content@);
                    r
                },
            },
            None => {
                let r = copy_range(content, 0, content.len());
                assert(r@ =~= content@);
                r
            },
        },
        None => match private_key {
            Some(pk) => match encrypt(content, pk) {
                Ok(e) => e,
                Err(_) => {
                    let r = copy_range(content, 0, content.len());
                    assert(r@ =~= content@);
                    r
                },
            },
            None => {
                let r = copy_range(content, 0, content.len());
                assert(r@ =~= content@);
                r
            },
        },
    }
}

/// The plaintext of a decryption, or `raw` when decryption fails.
pub open spec fn decrypted_or(key: Seq<u8>, raw: Seq<u8>) -> Seq<u8> {
    match decryption(key, raw) {
        Ok(p) => p,
        Err(_) => raw,
    }
}

/// The bytes kept for downloaded `raw` data: decrypted under the folder key
/// when the folder has a wrapped key that unwraps, else under the private
/// key's passphrase key; the data itself when there is no private key or
/// decryption fails.
pub open spec fn downloaded(
    raw: Seq<u8>,
    folder_key_b64: Option<Seq<char>>,
    private_key: Option<Seq<char>>,
) -> Seq<u8> {
    match private_key {
        None => raw,
        Some(pk) => match folder_key_b64 {
            Some(fk) => match unwrapped_key(fk, pk) {
                Some(k) => decrypted_or(k, raw),
                None => decrypted_or(wrapping_key(pk), raw),
            },
            None => decrypted_or(wrapping_key(pk), raw),
        },
    }
}

/// Downloaded data is never lost: without a private key it is kept as it
/// is; with one, it comes back as its decryption under the folder key (when
/// the folder's wrapped key unwraps) or else under the private key's
/// passphrase key, and unchanged when that decryption fails. In particular,
/// data that decrypts under no key at all comes back unchanged, and any
/// other result is a successful decryption of the data.
pub proof fn lemma_download_keeps_or_decrypts(
    raw: Seq<u8>,
    folder_key_b64: Option<Seq<char>>,
    private_key: Option<Seq<char>>,
)
    ensures
        private_key is None ==> downloaded(raw, folder_key_b64, private_key) == raw,
        private_key matches Some(pk) ==> ({
            let key = match folder_key_b64 {
                Some(fk) => match unwrapped_key(fk, pk) {
                    Some(k) => k,
                    None => wrapping_key(pk),
                },
                None => wrapping_key(pk),
            };
            &&& decryption(key, raw) is Err ==> downloaded(raw, folder_key_b64, private_key) == raw
            &&& decryption(key, raw) matches Ok(p) ==> downloaded(raw, folder_key_b64, private_key) == p
        }),
        (forall|key: Seq<u8>| #[trigger] decryption(key, raw) is Err) ==> downloaded(
            raw,
            folder_key_b64,
            private_key,
        ) == raw,
        downloaded(raw, folder_key_b64, private_key) == raw || exists|key: Seq<u8>|
            #[trigger] decryption(key, raw) == Ok::<Seq<u8>, Seq<char>>(
                downloaded(raw, folder_key_b64, private_key),
            ),
{
    if let Some(pk) = private_key {
        let key = match folder_key_b64 {
            Some(fk) => match unwrapped_key(fk, pk) {
                Some(k) => k,
                None => wrapping_key(pk),
            },
            None => wrapping_key(pk),
        };
        assert(downloaded(raw, folder_key_b64, private_key) == decrypted_or(key, raw));
        assert(decryption(key, raw) is Err || decryption(key, raw) is Ok);
    }
}

/// The bytes kept for downloaded data. Whatever `upload_payload` encrypted
/// for content under the same folder key and private key comes back as that
/// content.
pub fn download_payload(raw: Vec<u8>, folder_key_b64: Option<&str>, private_key: Option<&str>) -> (r: Vec<u8>)
    ensures
        r@ == downloaded(
            raw@,
            opt_str(folder_key_b64),
            opt_str(private_key),
        ),
        forall|c: Seq<u8>|
            c.len() <= AES_GCM_MAX_PLAINTEXT && #[trigger] uploaded(
                c,
                opt_str(folder_key_b64),
                opt_str(private_key),
                raw@,
            ) && (private_key is None || folder_key_b64 is None || unwrapped_key(
                folder_key_b64->0@,
                private_key->0@,
            ) is Some) ==> r@ == c,
{
    let pk = match private_key {
        Some(pk) => pk,
        None => return raw,
    };
    let key = match folder_key_b64 {
        Some(fk) => match unwrap_folder_key(fk, pk) {
            Ok(k) => k,
            Err(_) => derive_wrapping_key(pk),
        },
        None => derive_wrapping_key(pk),
    };
    match decrypt_with_key(raw.as_slice(), &key) {
        Ok(p) => p,
        Err(_) => raw,
    }
}

} // verus!
