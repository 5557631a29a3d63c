//! Encrypted recovery bundles: the passphrase rule, key derivation, the
//! byte layout of a bundle (magic, salt, nonce, sealed payload), and the
//! checks a restore makes before it replaces anything.
use vstd::prelude::*;

use base64::Engine;
use ring::rand::SecureRandom;

use crate::error::{error_view, outcome_is, AppError, ErrorKind};
use crate::text::str_eq;

verus! {

/// The counts a bundle was made with, shown before a restore.
#[derive(Debug, Clone)]
pub struct RecoveryPreview {
    pub exported_at: String,
    pub proxy_count: i64,
    pub certificate_count: i64,
    pub host_count: i64,
    pub dns_credential_count: i64,
}

/// A ready certificate's PEM files, base64-encoded.
#[derive(Debug, Clone)]
pub struct CertMaterial {
    pub id: String,
    pub cert: String,
    pub key: String,
}

/// The decrypted content of a bundle.
#[derive(Debug, Clone)]
pub struct RecoveryBundle {
    pub version: u32,
    pub preview: RecoveryPreview,
    pub database: String,
    pub certificates: Vec<CertMaterial>,
}

/// The largest bundle (and database) accepted, in bytes.
pub const MAX_BUNDLE_BYTES: u64 = 536870912;

/// The length of the salt that follows the magic.
pub const SALT_LEN: usize = 16;

/// The length of the nonce that follows the salt.
pub const NONCE_LEN: usize = 12;

/// The PBKDF2 iterations of the key derivation.
pub const KDF_ITERATIONS: u32 = 200000;

/// The length of the derived key.
pub const KEY_LEN: usize = 32;

/// The largest payload that AES-GCM seals: (2^32 - 2) blocks of 16 bytes.
pub const MAX_SEAL_BYTES: u64 = 68719476704;

/// The eight bytes a bundle starts with: `MRDNREC1`.
pub open spec fn magic_spec() -> Seq<u8> {
    seq![77u8, 82u8, 68u8, 78u8, 82u8, 69u8, 67u8, 49u8]
}

/// The eight bytes a bundle starts with.
pub fn magic() -> (r: Vec<u8>)
    ensures
        r@ == magic_spec(),
{
    let r = vec![77u8, 82u8, 68u8, 78u8, 82u8, 69u8, 67u8, 49u8];
    assert(r@ =~= magic_spec());
    r
}

/// PBKDF2 with HMAC-SHA256 (as `ring::pbkdf2::derive` computes it) with the
/// given iterations, salt and secret, `len` bytes long.
pub uninterp spec fn pbkdf2_sha256(iterations: u32, salt: Seq<u8>, secret: Seq<u8>, len: nat) -> Seq<u8>;

/// AES-256-GCM sealing (ciphertext followed by the tag) of `plain` under
/// `key`, `nonce` and additional data `aad`, as `ring` computes it.
pub uninterp spec fn aes_gcm_seal(key: Seq<u8>, nonce: Seq<u8>, aad: Seq<u8>, plain: Seq<u8>) -> Seq<u8>;

/// AES-256-GCM opening of `sealed` (ciphertext and tag), as `ring` computes
/// it: the plaintext, or `None` where authentication fails.
pub uninterp spec fn aes_gcm_open(key: Seq<u8>, nonce: Seq<u8>, aad: Seq<u8>, sealed: Seq<u8>) -> Option<Seq<u8>>;

/// Standard base64 (with padding) of `bytes`, as the `base64` crate's
/// `STANDARD` engine encodes it.
pub uninterp spec fn b64_encode(bytes: Seq<u8>) -> Seq<char>;

/// The bytes the `base64` crate's `STANDARD` engine decodes from `text`, or
/// `None` where it rejects the text.
pub uninterp spec fn b64_decode(text: Seq<char>) -> Option<Seq<u8>>;

/// Calls `ring::pbkdf2::derive` with `PBKDF2_HMAC_SHA256`: the result is the
/// named PBKDF2 output for these arguments, `len` bytes long. The lengths are
/// bounded far below the digest's input limit, past which `ring` panics.
#[verifier::external_body]
fn pbkdf2_derive(iterations: u32, salt: &[u8], secret: &[u8], len: usize) -> (r: Vec<u8>)
    requires
        iterations > 0,
        salt@.len() < 0x1000_0000_0000_0000,
        secret@.len() < 0x1000_0000_0000_0000,
        1 <= len <= 64,
    ensures
        r@ == pbkdf2_sha256(iterations, salt@, secret@, len as nat),
        r@.len() == len,
{
    let mut out = vec![0u8; len];
    let n = std::num::NonZeroU32::new(iterations).unwrap();
    ring::pbkdf2::derive(ring::pbkdf2::PBKDF2_HMAC_SHA256, n, salt, secret, &mut out);
    out
}

/// Calls `LessSafeKey::seal_in_place_append_tag` for AES-256-GCM (after
/// `UnboundKey::new` on `key`, and the nonce taken from `nonce`): a success
/// holds the named sealing of `plain`: the ciphertext, as long as `plain`,
/// with the 16-byte tag appended. `ring` fails only on a key that is not 32
/// bytes, a nonce that is not 12 bytes, or input past its AES-GCM limit of
/// (2^32 - 2) blocks of 16 bytes (on 64-bit targets; saturated to the whole
/// address space on 32-bit ones) or additional data whose bit length
/// overflows; within those bounds it succeeds.
#[verifier::external_body]
fn aes_gcm_seal_in_place(key: &[u8], nonce: &[u8], aad: &[u8], plain: Vec<u8>) -> (r: Result<Vec<u8>, ()>)
    ensures
        r matches Ok(v) ==> v@ == aes_gcm_seal(key@, nonce@, aad@, plain@) && v@.len() == plain@.len()
            + 16,
        key@.len() == 32 && nonce@.len() == 12 && aad@.len() <= 0x1000_0000 && plain@.len()
            <= MAX_SEAL_BYTES ==> r is Ok,
{
    let unbound = ring::aead::UnboundKey::new(&ring::aead::AES_256_GCM, key).map_err(|_| ())?;
    let sealing = ring::aead::LessSafeKey::new(unbound);
    let n = ring::aead::Nonce::try_assume_unique_for_key(nonce).map_err(|_| ())?;
    let mut in_out = plain;
    sealing.seal_in_place_append_tag(n, ring::aead::Aad::from(aad), &mut in_out).map_err(|_| ())?;
    Ok(in_out)
}

/// Where `sealed` is the sealing of some plaintext under a 32-byte key and a
/// 12-byte nonce with the same additional data, `r` is that plaintext.
pub open spec fn gives_back_sealed(
    key: Seq<u8>,
    nonce: Seq<u8>,
    aad: Seq<u8>,
    sealed: Seq<u8>,
    r: Result<Vec<u8>, ()>,
) -> bool {
    forall|p: Seq<u8>|
        sealed == #[trigger] aes_gcm_seal(key, nonce, aad, p) && key.len() == 32 && nonce.len() == 12
            ==> (r matches Ok(v) && v@ == p)
}

/// Calls `LessSafeKey::open_in_place` for AES-256-GCM (after
/// `UnboundKey::new` on `key`, and the nonce taken from `nonce`): the result
/// is the named opening; opening what sealing produced for the same key,
/// nonce and additional data gives the plaintext back.
#[verifier::external_body]
fn aes_gcm_open_in_place(key: &[u8], nonce: &[u8], aad: &[u8], sealed: Vec<u8>) -> (r: Result<Vec<u8>, ()>)
    ensures
        r matches Ok(v) ==> aes_gcm_open(key@, nonce@, aad@, sealed@) == Some(v@),
        r is Err ==> aes_gcm_open(key@, nonce@, aad@, sealed@) is None,
        gives_back_sealed(key@, nonce@, aad@, sealed@, r),
{
    let unbound = ring::aead::UnboundKey::new(&ring::aead::AES_256_GCM, key).map_err(|_| ())?;
    let opening = ring::aead::LessSafeKey::new(unbound);
    let n = ring::aead::Nonce::try_assume_unique_for_key(nonce).map_err(|_| ())?;
    let mut in_out = sealed;
    let len = opening.open_in_place(n, ring::aead::Aad::from(aad), &mut in_out).map_err(|_| ())?.len();
    in_out.truncate(len);
    Ok(in_out)
}

/// The length of an AES-256-GCM tag (`ring`'s `tag_len`, 16).
#[verifier::external_body]
fn aes_gcm_tag_len() -> (r: usize)
    ensures
        r == 16,
{
    ring::aead::AES_256_GCM.tag_len()
}

/// Fills `len` bytes from `ring::rand::SystemRandom::fill`; a success holds
/// exactly `len` bytes, whose values are left open.
#[verifier::external_body]
fn random_bytes(len: usize) -> (r: Result<Vec<u8>, ()>)
    ensures
        r matches Ok(v) ==> v@.len() == len,
{
    let mut out = vec![0u8; len];
    ring::rand::SystemRandom::new().fill(&mut out).map_err(|_| ())?;
    Ok(out)
}

/// Calls the `base64` `STANDARD` engine's `encode`: the named encoding. The
/// length bound keeps the crate's output size computation from overflowing,
/// where it panics.
#[verifier::external_body]
pub(crate) fn base64_encode(bytes: &[u8]) -> (r: String)
    requires
        bytes@.len() / 3 * 4 + 4 <= usize::MAX,
    ensures
        r@ == b64_encode(bytes@),
{
    base64::engine::general_purpose::STANDARD.encode(bytes)
}

/// Calls the `base64` `STANDARD` engine's `decode`: the named decoding.
#[verifier::external_body]
fn base64_decode(text: &str) -> (r: Result<Vec<u8>, ()>)
    ensures
        match r {
            Ok(v) => b64_decode(text@) == Some(v@),
            Err(()) => b64_decode(text@) is None,
        },
{
    base64::engine::general_purpose::STANDARD.decode(text).map_err(|_| ())
}

/// The error of the recovery checks, with its message.
pub open spec fn recovery_error(msg: Seq<char>) -> (ErrorKind, Seq<char>) {
    (ErrorKind::Validation, msg)
}

fn recovery_err<T>(msg: &str) -> (r: Result<T, AppError>)
    ensures
        r matches Err(e) && error_view(e) == recovery_error(msg@),
{
    Err(AppError::Validation(String::from_str(msg)))
}

/// A passphrase must have at least twelve characters.
pub open spec fn passphrase_ok(passphrase: Seq<char>) -> bool {
    passphrase.len() >= 12
}

/// Checks the passphrase rule.
pub fn check_passphrase(passphrase: &str) -> (r: Result<(), AppError>)
    ensures
        outcome_is(
            r,
            if passphrase_ok(passphrase@) {
                Ok(())
            } else {
                Err(recovery_error("Recovery passphrase must be at least 12 characters"@))
            },
        ),
{
    if passphrase.unicode_len() < 12 {
        return recovery_err("Recovery passphrase must be at least 12 characters");
    }
    Ok(())
}

/// The key a passphrase and salt give.
pub open spec fn bundle_key(passphrase: Seq<char>, salt: Seq<u8>) -> Seq<u8> {
    pbkdf2_sha256(KDF_ITERATIONS, salt, vstd::utf8::encode_utf8(passphrase), KEY_LEN as nat)
}

/// The 32-byte key for a passphrase and salt (PBKDF2-HMAC-SHA256, 200000
/// iterations), after the passphrase rule.
pub fn derive_key(passphrase: &str, salt: &[u8]) -> (r: Result<Vec<u8>, AppError>)
    requires
        salt@.len() < 0x1000_0000_0000_0000,
        passphrase@.len() < 0x0400_0000_0000_0000,
    ensures
        passphrase_ok(passphrase@) ==> (r matches Ok(k) && k@ == bundle_key(passphrase@, salt@)
            && k@.len() == 32),
        !passphrase_ok(passphrase@) ==> (r matches Err(e) && error_view(e) == recovery_error(
            "Recovery passphrase must be at least 12 characters"@,
        )),
{
    check_passphrase(passphrase)?;
    let secret = passphrase.as_bytes();
    proof {
        crate::text::lemma_utf8_len_bound(passphrase@);
    }
    let k = pbkdf2_derive(KDF_ITERATIONS, salt, secret, KEY_LEN);
    Ok(k)
}

/// The bytes of a bundle: magic, salt, nonce, then the payload sealed under
/// the key of passphrase and salt, with the magic as additional data.
pub open spec fn bundle_frame(passphrase: Seq<char>, salt: Seq<u8>, nonce: Seq<u8>, payload: Seq<u8>) -> Seq<u8> {
    magic_spec() + salt + nonce + aes_gcm_seal(bundle_key(passphrase, salt), nonce, magic_spec(), payload)
}

fn append_bytes(out: &mut Vec<u8>, b: &[u8])
    ensures
        final(out)@ == old(out)@ + b@,
{
    let mut i: usize = 0;
    let ghost start = out@;
    while i < b.len()
        invariant
            i <= b@.len(),
            out@ == start + b@.subrange(0, i as int),
        decreases b@.len() - i,
    {
        out.push(b[i]);
        proof {
            assert(b@.subrange(0, i + 1) =~= b@.subrange(0, i as int).push(b@[i as int]));
        }
        i = i + 1;
    }
    proof {
        assert(b@.subrange(0, b@.len() as int) =~= b@);
    }
}

/// Seals `payload` into a bundle with the given salt and nonce.
pub fn seal_bundle(payload: Vec<u8>, passphrase: &str, salt: &[u8], nonce: &[u8]) -> (r: Result<Vec<u8>, AppError>)
    requires
        salt@.len() == SALT_LEN,
        nonce@.len() == NONCE_LEN,
        passphrase@.len() < 0x0400_0000_0000_0000,
    ensures
        !passphrase_ok(passphrase@) ==> (r matches Err(e) && error_view(e) == recovery_error(
            "Recovery passphrase must be at least 12 characters"@,
        )),
        passphrase_ok(passphrase@) ==> match r {
            Ok(out) => out@ == bundle_frame(passphrase@, salt@, nonce@, payload@) && out@.len()
                == payload@.len() + 52,
            Err(e) => error_view(e) == recovery_error("Could not encrypt recovery bundle"@),
        },
        passphrase_ok(passphrase@) && payload@.len() <= MAX_SEAL_BYTES ==> r is Ok,
{
    let key = derive_key(passphrase, salt)?;
    let m = magic();
    let sealed = match aes_gcm_seal_in_place(key.as_slice(), nonce, m.as_slice(), payload) {
        Ok(v) => v,
        Err(()) => return recovery_err("Could not encrypt recovery bundle"),
    };
    let mut out = magic();
    append_bytes(&mut out, salt);
    append_bytes(&mut out, nonce);
    append_bytes(&mut out, sealed.as_slice());
    Ok(out)
}

/// Encrypts a serialized bundle under the passphrase with a fresh random salt
/// and nonce. A success is a bundle frame of the payload whose salt and nonce
/// are the bytes at 8..24 and 24..36. It fails only when the random source
/// fails, the passphrase is too short, or the payload is past what AES-GCM
/// seals.
pub fn encrypt_bundle(payload: Vec<u8>, passphrase: &str) -> (r: Result<Vec<u8>, AppError>)
    requires
        passphrase@.len() < 0x0400_0000_0000_0000,
    ensures
        r matches Ok(out) ==> (out@.len() == payload@.len() + 52 && out@ == bundle_frame(
            passphrase@,
            out@.subrange(8, 24),
            out@.subrange(24, 36),
            payload@,
        ) && passphrase_ok(passphrase@)),
        r matches Err(e) ==> {
            ||| error_view(e) == recovery_error("Could not generate recovery salt"@)
            ||| error_view(e) == recovery_error("Could not generate recovery nonce"@)
            ||| !passphrase_ok(passphrase@) && error_view(e) == recovery_error(
                "Recovery passphrase must be at least 12 characters"@,
            )
            ||| payload@.len() > MAX_SEAL_BYTES && error_view(e) == recovery_error(
                "Could not encrypt recovery bundle"@,
            )
        },
{
    let salt = match random_bytes(SALT_LEN) {
        Ok(v) => v,
        Err(()) => return recovery_err("Could not generate recovery salt"),
    };
    let nonce = match random_bytes(NONCE_LEN) {
        Ok(v) => v,
        Err(()) => return recovery_err("Could not generate recovery nonce"),
    };
    let r = seal_bundle(payload, passphrase, salt.as_slice(), nonce.as_slice());
    proof {
        match &r {
            Ok(out) => {
                assert(out@.subrange(8, 24) =~= salt@);
                assert(out@.subrange(24, 36) =~= nonce@);
            },
            Err(_) => {},
        }
    }
    r
}

/// A bundle's bytes can hold a bundle: not over the size limit, long enough
/// for magic, salt, nonce and tag, and starting with the magic.
pub open spec fn frame_ok(input: Seq<u8>) -> bool {
    &&& input.len() <= MAX_BUNDLE_BYTES
    &&& input.len() >= 8 + 16 + 12 + 16
    &&& input.subrange(0, 8) == magic_spec()
}

/// What reading a bundle's bytes gives: the payload, or the first error.
pub open spec fn read_bundle_spec(input: Seq<u8>, passphrase: Seq<char>) -> Result<Seq<u8>, (ErrorKind, Seq<char>)> {
    if !frame_ok(input) {
        Err(recovery_error("Invalid or oversized recovery bundle"@))
    } else if !passphrase_ok(passphrase) {
        Err(recovery_error("Recovery passphrase must be at least 12 characters"@))
    } else {
        match aes_gcm_open(
            bundle_key(passphrase, input.subrange(8, 24)),
            input.subrange(24, 36),
            magic_spec(),
            input.skip(36),
        ) {
            Some(p) => Ok(p),
            None => Err(recovery_error("Wrong passphrase or damaged recovery bundle"@)),
        }
    }
}

/// Decrypts a bundle's bytes (at most one byte past the size limit need be
/// read) into its serialized payload. A bundle framed from a payload under a
/// passphrase reads back as that payload.
pub fn read_bundle(input: Vec<u8>, passphrase: &str) -> (r: Result<Vec<u8>, AppError>)
    requires
        passphrase@.len() < 0x0400_0000_0000_0000,
    ensures
        match (r, read_bundle_spec(input@, passphrase@)) {
            (Ok(v), Ok(p)) => v@ == p,
            (Err(e), Err(x)) => error_view(e) == x,
            _ => false,
        },
        forall|salt: Seq<u8>, nonce: Seq<u8>, p: Seq<u8>|
            salt.len() == 16 && nonce.len() == 12 && passphrase_ok(passphrase@) && input@
                == #[trigger] bundle_frame(passphrase@, salt, nonce, p) && 52 <= input@.len()
                <= MAX_BUNDLE_BYTES ==> (r matches Ok(v) && v@ == p),
{
    let tag_len = aes_gcm_tag_len();
    let m = magic();
    let n = input.len();
    let mut ok = n as u64 <= MAX_BUNDLE_BYTES && n >= 8 + SALT_LEN + NONCE_LEN + tag_len;
    if ok {
        let mut i: usize = 0;
        assert(input@.subrange(0, 0) =~= magic_spec().subrange(0, 0));
        while i < 8
            invariant
                n == input@.len(),
                n >= 8,
                m@ == magic_spec(),
                i <= 8,
                ok == (input@.subrange(0, i as int) == magic_spec().subrange(0, i as int)),
            decreases 8 - i,
        {
            proof {
                assert(input@.subrange(0, i + 1) =~= input@.subrange(0, i as int).push(input@[i as int]));
                assert(magic_spec().subrange(0, i + 1) =~= magic_spec().subrange(0, i as int).push(
                    magic_spec()[i as int],
                ));
                if input@.subrange(0, i + 1) == magic_spec().subrange(0, i + 1) {
                    assert(input@.subrange(0, i + 1)[i as int] == magic_spec().subrange(0, i + 1)[i as int]);
                    assert(input@.subrange(0, i + 1).drop_last() =~= input@.subrange(0, i as int));
                    assert(magic_spec().subrange(0, i + 1).drop_last() =~= magic_spec().subrange(0, i as int));
                }
            }
            ok = ok && input[i] == m[i];
            i = i + 1;
        }
        proof {
            assert(magic_spec().subrange(0, 8) =~= magic_spec());
        }
    }
    if !ok {
        proof {
            assert forall|salt2: Seq<u8>, nonce2: Seq<u8>, p: Seq<u8>|
                salt2.len() == 16 && nonce2.len() == 12 && input@ == #[trigger] bundle_frame(
                    passphrase@,
                    salt2,
                    nonce2,
                    p,
                ) implies input@.subrange(0, 8) == magic_spec() by {
                assert(input@.subrange(0, 8) =~= magic_spec());
            }
        }
        return recovery_err("Invalid or oversized recovery bundle");
    }
    let salt = vstd::slice::slice_subrange(input.as_slice(), 8, 24);
    let nonce = vstd::slice::slice_to_vec(vstd::slice::slice_subrange(input.as_slice(), 24, 36));
    let key = derive_key(passphrase, salt)?;
    let sealed = vstd::slice::slice_to_vec(vstd::slice::slice_subrange(input.as_slice(), 36, n));
    proof {
        assert(sealed@ =~= input@.skip(36));
    }
    let r = match aes_gcm_open_in_place(key.as_slice(), nonce.as_slice(), m.as_slice(), sealed) {
        Ok(p) => Ok(p),
        Err(()) => recovery_err("Wrong passphrase or damaged recovery bundle"),
    };
    proof {
        assert forall|salt2: Seq<u8>, nonce2: Seq<u8>, p: Seq<u8>|
            salt2.len() == 16 && nonce2.len() == 12 && passphrase_ok(passphrase@) && input@
                == #[trigger] bundle_frame(passphrase@, salt2, nonce2, p) && 52 <= input@.len()
                <= MAX_BUNDLE_BYTES implies (r matches Ok(v) && v@ == p) by {
            let f = bundle_frame(passphrase@, salt2, nonce2, p);
            assert(f.subrange(8, 24) =~= salt2);
            assert(f.subrange(24, 36) =~= nonce2);
            assert(f.skip(36) =~= aes_gcm_seal(bundle_key(passphrase@, salt2), nonce2, magic_spec(), p));
        }
    }
    r
}

/// The preview of a decrypted bundle; only version 1 is understood.
pub fn preview_bundle(bundle: RecoveryBundle) -> (r: Result<RecoveryPreview, AppError>)
    ensures
        bundle.version == 1 ==> r == Ok::<RecoveryPreview, AppError>(bundle.preview),
        bundle.version != 1 ==> (r matches Err(e) && error_view(e) == recovery_error(
            "Unsupported recovery bundle version"@,
        )),
{
    if bundle.version != 1 {
        return recovery_err("Unsupported recovery bundle version");
    }
    Ok(bundle.preview)
}

} // verus!

verus! {

/// The sixteen bytes an SQLite database file starts with.
pub open spec fn sqlite_header_spec() -> Seq<u8> {
    seq![83u8, 81u8, 76u8, 105u8, 116u8, 101u8, 32u8, 102u8, 111u8, 114u8, 109u8, 97u8, 116u8, 32u8, 51u8, 0u8]
}

fn sqlite_header() -> (r: Vec<u8>)
    ensures
        r@ == sqlite_header_spec(),
{
    let r = vec![83u8, 81u8, 76u8, 105u8, 116u8, 101u8, 32u8, 102u8, 111u8, 114u8, 109u8, 97u8, 116u8, 32u8, 51u8, 0u8];
    assert(r@ =~= sqlite_header_spec());
    r
}

/// `data` begins with `prefix`.
pub open spec fn bytes_start_with(data: Seq<u8>, prefix: Seq<u8>) -> bool {
    prefix.len() <= data.len() && data.subrange(0, prefix.len() as int) == prefix
}

fn starts_with_bytes(data: &[u8], prefix: &[u8]) -> (r: bool)
    ensures
        r == bytes_start_with(data@, prefix@),
{
    if prefix.len() > data.len() {
        return false;
    }
    let mut i: usize = 0;
    while i < prefix.len()
        invariant
            prefix@.len() <= data@.len(),
            i <= prefix@.len(),
            data@.subrange(0, i as int) == prefix@.subrange(0, i as int),
        decreases prefix@.len() - i,
    {
        if data[i] != prefix[i] {
            proof {
                if data@.subrange(0, prefix@.len() as int) == prefix@ {
                    assert(data@.subrange(0, prefix@.len() as int)[i as int] == prefix@[i as int]);
                }
            }
            return false;
        }
        proof {
            assert(data@.subrange(0, i + 1) =~= data@.subrange(0, i as int).push(data@[i as int]));
            assert(prefix@.subrange(0, i + 1) =~= prefix@.subrange(0, i as int).push(prefix@[i as int]));
        }
        i = i + 1;
    }
    proof {
        assert(prefix@.subrange(0, prefix@.len() as int) =~= prefix@);
    }
    true
}

/// What decoding the bundle's database gives: its bytes, or why they cannot
/// be restored.
pub open spec fn database_spec(b64: Seq<char>) -> Result<Seq<u8>, (ErrorKind, Seq<char>)> {
    match b64_decode(b64) {
        None => Err(recovery_error("Recovery database is damaged"@)),
        Some(d) => if !bytes_start_with(d, sqlite_header_spec()) || d.len() > MAX_BUNDLE_BYTES {
            Err(recovery_error("Recovery database is invalid or oversized"@))
        } else {
            Ok(d)
        },
    }
}

/// Decodes the bundle's database and checks that it is an SQLite file within
/// the size limit.
pub fn decode_database(b64: &str) -> (r: Result<Vec<u8>, AppError>)
    ensures
        match (r, database_spec(b64@)) {
            (Ok(v), Ok(d)) => v@ == d,
            (Err(e), Err(x)) => error_view(e) == x,
            _ => false,
        },
{
    let d = match base64_decode(b64) {
        Ok(v) => v,
        Err(()) => return recovery_err("Recovery database is damaged"),
    };
    let h = sqlite_header();
    if !starts_with_bytes(d.as_slice(), h.as_slice()) || d.len() as u64 > MAX_BUNDLE_BYTES {
        return recovery_err("Recovery database is invalid or oversized");
    }
    Ok(d)
}

/// Checks the answer of `PRAGMA integrity_check` on the restored database.
pub fn check_integrity(result: &str) -> (r: Result<(), AppError>)
    ensures
        outcome_is(
            r,
            if result@ == "ok"@ {
                Ok(())
            } else {
                Err(recovery_error("Recovery database failed integrity check"@))
            },
        ),
{
    if str_eq(result, "ok") {
        Ok(())
    } else {
        recovery_err("Recovery database failed integrity check")
    }
}

/// Some ready certificate has the id.
pub open spec fn ready_has(ready: Seq<String>, id: Seq<char>) -> bool {
    exists|a: int| 0 <= a < ready.len() && (#[trigger] ready[a])@ == id
}

/// One of the first `upto` certificate files has the id.
pub open spec fn materials_have(materials: Seq<CertMaterial>, id: Seq<char>, upto: int) -> bool {
    exists|b: int| 0 <= b < upto && (#[trigger] materials[b]).id@ == id
}

/// The bundle's certificate files are exactly those of the database's ready
/// certificates: the same ids, each once.
pub open spec fn ids_match(ready: Seq<String>, materials: Seq<CertMaterial>) -> bool {
    &&& forall|a: int, b: int|
        0 <= a < b < materials.len() ==> (#[trigger] materials[a]).id@ != (#[trigger] materials[b]).id@
    &&& forall|a: int| 0 <= a < ready.len() ==> materials_have(materials, (#[trigger] ready[a])@, materials.len() as int)
    &&& forall|b: int| 0 <= b < materials.len() ==> ready_has(ready, (#[trigger] materials[b]).id@)
}

fn holds_id(v: &[String], id: &str) -> (r: bool)
    ensures
        r == ready_has(v@, id@),
{
    let mut a: usize = 0;
    while a < v.len()
        invariant
            a <= v@.len(),
            forall|b: int| 0 <= b < a ==> (#[trigger] v@[b])@ != id@,
        decreases v@.len() - a,
    {
        if str_eq(v[a].as_str(), id) {
            return true;
        }
        a = a + 1;
    }
    false
}

fn material_holds_id(v: &[CertMaterial], id: &str, upto: usize) -> (r: bool)
    requires
        upto <= v@.len(),
    ensures
        r == materials_have(v@, id@, upto as int),
{
    let mut a: usize = 0;
    while a < upto
        invariant
            upto <= v@.len(),
            a <= upto,
            forall|b: int| 0 <= b < a ==> (#[trigger] v@[b]).id@ != id@,
        decreases upto - a,
    {
        if str_eq(v[a].id.as_str(), id) {
            return true;
        }
        a = a + 1;
    }
    false
}

/// Checks that the bundle's certificate files match the restored database's
/// ready certificates.
pub fn check_certificate_ids(ready: &[String], materials: &[CertMaterial]) -> (r: Result<(), AppError>)
    ensures
        outcome_is(
            r,
            if ids_match(ready@, materials@) {
                Ok(())
            } else {
                Err(recovery_error("Recovery certificate files do not match database records"@))
            },
        ),
{
    let mut b: usize = 0;
    while b < materials.len()
        invariant
            b <= materials@.len(),
            forall|x: int, y: int|
                0 <= x < y < b ==> (#[trigger] materials@[x]).id@ != (#[trigger] materials@[y]).id@,
            forall|y: int| 0 <= y < b ==> ready_has(ready@, (#[trigger] materials@[y]).id@),
        decreases materials@.len() - b,
    {
        let id = materials[b].id.as_str();
        if material_holds_id(materials, id, b) {
            proof {
                let x = choose|x: int| 0 <= x < b && (#[trigger] materials@[x]).id@ == id@;
                assert(materials@[x].id@ == materials@[b as int].id@);
            }
            return recovery_err("Recovery certificate files do not match database records");
        }
        if !holds_id(ready, id) {
            return recovery_err("Recovery certificate files do not match database records");
        }
        b = b + 1;
    }
    let mut a: usize = 0;
    while a < ready.len()
        invariant
            a <= ready@.len(),
            b == materials@.len(),
            forall|x: int, y: int|
                0 <= x < y < materials@.len() ==> (#[trigger] materials@[x]).id@ != (#[trigger] materials@[y]).id@,
            forall|y: int| 0 <= y < materials@.len() ==> ready_has(ready@, (#[trigger] materials@[y]).id@),
            forall|x: int| 0 <= x < a ==> materials_have(materials@, (#[trigger] ready@[x])@, materials@.len() as int),
        decreases ready@.len() - a,
    {
        if !material_holds_id(materials, ready[a].as_str(), materials.len()) {
            return recovery_err("Recovery certificate files do not match database records");
        }
        a = a + 1;
    }
    Ok(())
}

/// A table whose record count the bundle's manifest holds.
#[derive(Debug, Clone, Copy, PartialEq, Eq)]
pub enum ManifestTable {
    ProxyRules,
    Certificates,
    HostEntries,
    DnsCredentials,
}

/// The count the manifest holds for a table.
pub open spec fn manifest_count(t: ManifestTable, p: RecoveryPreview) -> i64 {
    match t {
        ManifestTable::ProxyRules => p.proxy_count,
        ManifestTable::Certificates => p.certificate_count,
        ManifestTable::HostEntries => p.host_count,
        ManifestTable::DnsCredentials => p.dns_credential_count,
    }
}

/// The name of a table.
pub open spec fn table_name_spec(t: ManifestTable) -> Seq<char> {
    match t {
        ManifestTable::ProxyRules => "proxy_rules"@,
        ManifestTable::Certificates => "certificates"@,
        ManifestTable::HostEntries => "host_entries"@,
        ManifestTable::DnsCredentials => "dns_credentials"@,
    }
}

impl ManifestTable {
    /// The name of the table in the database.
    pub fn table_name(&self) -> (r: &'static str)
        ensures
            r@ == table_name_spec(*self),
    {
        match self {
            ManifestTable::ProxyRules => "proxy_rules",
            ManifestTable::Certificates => "certificates",
            ManifestTable::HostEntries => "host_entries",
            ManifestTable::DnsCredentials => "dns_credentials",
        }
    }
}

/// Checks a restored table's record count against the manifest.
pub fn check_count(table: ManifestTable, count: i64, preview: &RecoveryPreview) -> (r: Result<(), AppError>)
    ensures
        outcome_is(
            r,
            if count == manifest_count(table, *preview) {
                Ok(())
            } else {
                Err(recovery_error("Recovery manifest does not match database"@))
            },
        ),
{
    let expected = match table {
        ManifestTable::ProxyRules => preview.proxy_count,
        ManifestTable::Certificates => preview.certificate_count,
        ManifestTable::HostEntries => preview.host_count,
        ManifestTable::DnsCredentials => preview.dns_credential_count,
    };
    if count != expected {
        return recovery_err("Recovery manifest does not match database");
    }
    Ok(())
}

/// The largest certificate or key file restored, in bytes.
pub const MAX_PEM_BYTES: usize = 1048576;

/// What decoding a certificate's files gives: the certificate and key bytes,
/// or why they cannot be restored.
pub open spec fn material_spec(m: CertMaterial) -> Result<(Seq<u8>, Seq<u8>), (ErrorKind, Seq<char>)> {
    match b64_decode(m.cert@) {
        None => Err(recovery_error("Recovery certificate is damaged"@)),
        Some(c) => match b64_decode(m.key@) {
            None => Err(recovery_error("Recovery private key is damaged"@)),
            Some(k) => if c.len() > MAX_PEM_BYTES || k.len() > MAX_PEM_BYTES || !bytes_start_with(
                c,
                vstd::utf8::encode_utf8("-----BEGIN CERTIFICATE-----"@),
            ) || !bytes_start_with(k, vstd::utf8::encode_utf8("-----BEGIN"@)) {
                Err(recovery_error("Recovery certificate material is invalid"@))
            } else {
                Ok((c, k))
            },
        },
    }
}

/// Decodes a certificate's files from the bundle and checks that they are
/// PEM files of at most 1 MiB each.
pub fn decode_material(m: &CertMaterial) -> (r: Result<(Vec<u8>, Vec<u8>), AppError>)
    ensures
        match (r, material_spec(*m)) {
            (Ok((c, k)), Ok((c2, k2))) => c@ == c2 && k@ == k2,
            (Err(e), Err(x)) => error_view(e) == x,
            _ => false,
        },
{
    let c = match base64_decode(m.cert.as_str()) {
        Ok(v) => v,
        Err(()) => return recovery_err("Recovery certificate is damaged"),
    };
    let k = match base64_decode(m.key.as_str()) {
        Ok(v) => v,
        Err(()) => return recovery_err("Recovery private key is damaged"),
    };
    if c.len() > MAX_PEM_BYTES || k.len() > MAX_PEM_BYTES || !starts_with_bytes(
        c.as_slice(),
        "-----BEGIN CERTIFICATE-----".as_bytes(),
    ) || !starts_with_bytes(k.as_slice(), "-----BEGIN".as_bytes()) {
        return recovery_err("Recovery certificate material is invalid");
    }
    Ok((c, k))
}

/// A certificate's files as the bundle holds them.
pub fn encode_material(id: &str, cert: &[u8], key: &[u8]) -> (r: CertMaterial)
    requires
        cert@.len() / 3 * 4 + 4 <= usize::MAX,
        key@.len() / 3 * 4 + 4 <= usize::MAX,
    ensures
        r.id@ == id@,
        r.cert@ == b64_encode(cert@),
        r.key@ == b64_encode(key@),
{
    CertMaterial { id: String::from_str(id), cert: base64_encode(cert), key: base64_encode(key) }
}

/// The bundle's database, base64-encoded.
pub fn encode_database(bytes: &[u8]) -> (r: String)
    requires
        bytes@.len() / 3 * 4 + 4 <= usize::MAX,
    ensures
        r@ == b64_encode(bytes@),
{
    base64_encode(bytes)
}

/// What a restore undoes when it ends.
#[derive(Debug, Clone, Copy, PartialEq, Eq)]
pub struct RestoreCleanup {
    /// Detach the restored database.
    pub detach: bool,
    /// Apply the configuration of the (unchanged) database again.
    pub reapply_config: bool,
    /// Remove the certificate files the restore wrote.
    pub remove_created_files: bool,
}

/// What to undo after a restore: the attached database is always detached;
/// on failure the written certificate files are removed and, where the new
/// configuration had been applied, the old one is applied again.
pub fn restore_cleanup(succeeded: bool, attached: bool, config_applied: bool) -> (r: RestoreCleanup)
    ensures
        r.detach == attached,
        r.reapply_config == (!succeeded && config_applied),
        r.remove_created_files == !succeeded,
{
    RestoreCleanup {
        detach: attached,
        reapply_config: !succeeded && config_applied,
        remove_created_files: !succeeded,
    }
}

} // verus!
