//! Key derivation, authenticated encryption, randomness and erasure, each
//! resting on one call into an outside crate.
use chacha20poly1305::aead::{stream, NewAead};
use chacha20poly1305::XChaCha20Poly1305;
use rand::RngCore;
use vstd::prelude::*;
use vstd::utf8::valid_utf8;
use zeroize::Zeroize;

verus! {

/// The raw Argon2id hash of a password and salt under the given lanes,
/// memory cost (KiB), passes and output length.
pub uninterp spec fn argon2id_hash(
    pwd: Seq<u8>,
    salt: Seq<u8>,
    lanes: u32,
    mem_kib: u32,
    passes: u32,
    out_len: u32,
) -> Seq<u8>;

/// The ciphertext of a plaintext as the last (and only) chunk of an
/// XChaCha20-Poly1305 STREAM with a 32-bit big-endian counter.
pub uninterp spec fn xchacha_seal(key: Seq<u8>, nonce: Seq<u8>, plain: Seq<u8>) -> Seq<u8>;

/// Relies on argon2::hash_raw (rust-argon2) with an Argon2id configuration:
/// when the configuration is accepted, `out_len` bytes that depend on the arguments alone. The
/// parameters, salt and password are accepted inside the bounds of its `Context::new`.
#[verifier::external_body]
pub(crate) fn argon2_hash(
    pwd: &[u8],
    salt: &[u8],
    lanes: u32,
    mem_kib: u32,
    passes: u32,
    out_len: u32,
) -> (r: Option<Vec<u8>>)
    ensures
        r matches Some(k) ==> k@ == argon2id_hash(pwd@, salt@, lanes, mem_kib, passes, out_len)
            && k@.len() == out_len,
        1 <= lanes <= 0x00FF_FFFF && 8 <= mem_kib <= 0x20_0000 && 8 * lanes <= mem_kib && 1
            <= passes && 4 <= out_len && 8 <= salt@.len() <= 0xFFFF_FFFF && pwd@.len()
            <= 0xFFFF_FFFF ==> r is Some,
{
    let config = argon2::Config {
        variant: argon2::Variant::Argon2id,
        hash_length: out_len,
        lanes: lanes,
        mem_cost: mem_kib,
        time_cost: passes,
        ..Default::default()
    };
    argon2::hash_raw(pwd, salt, &config).ok()
}

/// Relies on aead's stream::EncryptorBE32::encrypt_last over
/// XChaCha20Poly1305: the ciphertext is the plaintext's length plus a
/// 16-byte tag. It fails only when the plaintext has `u32::MAX` or more
/// 64-byte blocks.
#[verifier::external_body]
pub(crate) fn seal_last(key: &[u8], nonce: &[u8], plain: &[u8]) -> (r: Option<Vec<u8>>)
    requires
        key@.len() == 32,
        nonce@.len() == 19,
    ensures
        r matches Some(c) ==> c@ == xchacha_seal(key@, nonce@, plain@) && c@.len() == plain@.len()
            + 16,
        plain@.len() / 64 < 0xFFFF_FFFF ==> r is Some,
{
    let aead = XChaCha20Poly1305::new(key.into());
    stream::EncryptorBE32::from_aead(aead, nonce.into()).encrypt_last(plain).ok()
}

/// Relies on aead's stream::DecryptorBE32::decrypt_last over
/// XChaCha20Poly1305: it succeeds exactly when the tag authenticates, and
/// then gives back the plaintext whose seal under the same key and nonce is
/// the ciphertext; a ciphertext that is such a seal always opens.
#[verifier::external_body]
pub(crate) fn open_last(key: &[u8], nonce: &[u8], ct: &[u8]) -> (r: Option<Vec<u8>>)
    requires
        key@.len() == 32,
        nonce@.len() == 19,
    ensures
        r matches Some(p) ==> xchacha_seal(key@, nonce@, p@) == ct@ && p@.len() + 16 == ct@.len(),
        r matches Some(q) ==> forall|p: Seq<u8>|
            #[trigger] xchacha_seal(key@, nonce@, p) == ct@ && p.len() + 16 == ct@.len() ==> q@ == p,
        r is None ==> forall|p: Seq<u8>|
            #[trigger] xchacha_seal(key@, nonce@, p) == ct@ ==> p.len() + 16 != ct@.len(),
{
    let aead = XChaCha20Poly1305::new(key.into());
    stream::DecryptorBE32::from_aead(aead, nonce.into()).decrypt_last(ct).ok()
}

/// Relies on rand's OsRng::try_fill_bytes: `n` bytes from the operating
/// system's generator, or nothing when that generator fails.
#[verifier::external_body]
pub(crate) fn random_bytes(n: usize) -> (r: Option<Vec<u8>>)
    ensures
        r matches Some(v) ==> v@.len() == n,
{
    let mut buf = vec![0u8; n];
    match rand::rngs::OsRng.try_fill_bytes(&mut buf) {
        Ok(()) => Some(buf),
        Err(_) => None,
    }
}

/// Relies on zeroize's Zeroize for byte slices: every byte is overwritten
/// with zero in place, by volatile writes.
#[verifier::external_body]
pub(crate) fn zero_out(buf: &mut Vec<u8>)
    ensures
        final(buf)@ == Seq::new(old(buf)@.len(), |i: int| 0u8),
{
    buf.as_mut_slice().zeroize();
}

/// Relies on std::str::from_utf8: it accepts exactly the valid UTF-8 byte
/// sequences.
#[verifier::external_body]
pub(crate) fn is_utf8(b: &[u8]) -> (r: bool)
    ensures
        r == valid_utf8(b@),
{
    std::str::from_utf8(b).is_ok()
}

/// Erases key material: every byte of salt, nonce and key is overwritten
/// with zero.
pub fn wipe_keys(salt: &mut Vec<u8>, nonce: &mut Vec<u8>, key: &mut Vec<u8>)
    ensures
        final(salt)@ == Seq::new(old(salt)@.len(), |i: int| 0u8),
        final(nonce)@ == Seq::new(old(nonce)@.len(), |i: int| 0u8),
        final(key)@ == Seq::new(old(key)@.len(), |i: int| 0u8),
{
    zero_out(salt);
    zero_out(nonce);
    zero_out(key);
}

} // verus!
