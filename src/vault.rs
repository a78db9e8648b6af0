//! The database file: a 51-byte header (salt, then nonce) followed by the
//! sealed record text, and the operations that load, change and reseal it.
//! Each operation takes the file's bytes and hands back the bytes to store;
//! on an error nothing is handed back, so the stored file stays as it was.
use crate::crypto::{
    argon2_hash,
    argon2id_hash,
    is_utf8,
    open_last,
    random_bytes,
    seal_last,
    wipe_keys,
    xchacha_seal,
    zero_out,
};
use crate::error::Error;
use crate::generator::{alphabet, generate_string, DictType};
use crate::records::{
    append_bytes,
    copy_range,
    delete,
    delete_spec,
    lookup,
    lookup_spec,
    upsert,
    upsert_spec,
};
use vstd::prelude::*;
use vstd::string::StringSliceAdditionalSpecFns;
use vstd::utf8::{encode_utf8, valid_utf8};

verus! {

pub const SALT_LEN: usize = 32;

pub const NONCE_LEN: usize = 19;

pub const HEADER_LEN: usize = 51;

pub const TAG_LEN: usize = 16;

pub const KEY_LEN: u32 = 32;

pub const KDF_LANES: u32 = 8;

pub const KDF_MEMORY_KIB: u32 = 16 * 1024;

pub const KDF_PASSES: u32 = 8;

/// The text a new database holds: `veas file`.
pub open spec fn sentinel() -> Seq<u8> {
    seq![0x76u8, 0x65u8, 0x61u8, 0x73u8, 0x20u8, 0x66u8, 0x69u8, 0x6cu8, 0x65u8]
}

/// The key of a passphrase and salt.
pub open spec fn derived_key(pass: Seq<u8>, salt: Seq<u8>) -> Seq<u8> {
    argon2id_hash(pass, salt, KDF_LANES, KDF_MEMORY_KIB, KDF_PASSES, KEY_LEN)
}

pub open spec fn salt_of(f: Seq<u8>) -> Seq<u8> {
    f.subrange(0, SALT_LEN as int)
}

pub open spec fn nonce_of(f: Seq<u8>) -> Seq<u8> {
    f.subrange(SALT_LEN as int, HEADER_LEN as int)
}

pub open spec fn body_of(f: Seq<u8>) -> Seq<u8> {
    f.subrange(HEADER_LEN as int, f.len() as int)
}

/// A file holding `plain` sealed under the key of `pass` and `salt`.
pub open spec fn sealed_file(salt: Seq<u8>, nonce: Seq<u8>, pass: Seq<u8>, plain: Seq<u8>) -> Seq<
    u8,
> {
    salt + nonce + xchacha_seal(derived_key(pass, salt), nonce, plain)
}

/// `plain` sealed under the header of the file `f`.
pub open spec fn resealed(f: Seq<u8>, pass: Seq<u8>, plain: Seq<u8>) -> Seq<u8> {
    sealed_file(salt_of(f), nonce_of(f), pass, plain)
}

/// A passphrase short enough for the key derivation (at most `u32::MAX` bytes).
pub open spec fn password_fits(pass: Seq<u8>) -> bool {
    pass.len() <= 0xFFFF_FFFF
}

/// A text short enough to be sealed (fewer than `u32::MAX` 64-byte blocks).
pub open spec fn sealable(p: Seq<u8>) -> bool {
    p.len() / 64 < 0xFFFF_FFFF
}

/// The file `f` is the text `p` sealed under its own header and the key of `pass`.
pub open spec fn opens_to(f: Seq<u8>, pass: Seq<u8>, p: Seq<u8>) -> bool {
    f.len() == HEADER_LEN + p.len() + TAG_LEN && resealed(f, pass, p) == f
}

/// The text that the file `f` opens to under `pass`, if any.
pub open spec fn opened_text(f: Seq<u8>, pass: Seq<u8>) -> Option<Seq<u8>> {
    if exists|p: Seq<u8>| #[trigger] opens_to(f, pass, p) {
        Some(choose|p: Seq<u8>| #[trigger] opens_to(f, pass, p))
    } else {
        None
    }
}

/// What opening the file `f` with `pass` gives: its record text, or why not.
pub open spec fn unlock_spec(f: Seq<u8>, pass: Seq<u8>) -> Result<Seq<u8>, Error> {
    if f.len() < SALT_LEN {
        Err(Error::Salt)
    } else if f.len() < HEADER_LEN {
        Err(Error::Nonce)
    } else {
        match opened_text(f, pass) {
            None => Err(Error::Authentication),
            Some(p) => if valid_utf8(p) {
                Ok(p)
            } else {
                Err(Error::Encoding)
            },
        }
    }
}

/// The key could not be derived, which happens only for an overlong passphrase.
pub open spec fn key_failure<T>(r: Result<T, Error>, pass: Seq<u8>) -> bool {
    r matches Err(e) && e is KeyDerivation && !password_fits(pass)
}

/// A file that `pass` opens opens to one text only.
pub open spec fn opens_uniquely(f: Seq<u8>, pass: Seq<u8>) -> bool {
    forall|p: Seq<u8>|
        #[trigger] opens_to(f, pass, p) && password_fits(pass) ==> opened_text(f, pass) == Some(p)
}

pub open spec fn opt_view(o: Option<Vec<u8>>) -> Option<Seq<u8>> {
    match o {
        Some(v) => Some(v@),
        None => None,
    }
}

/// The text a new database holds.
pub fn sentinel_payload() -> (r: Vec<u8>)
    ensures
        r@ == sentinel(),
{
    let r: Vec<u8> = vec![0x76u8, 0x65u8, 0x61u8, 0x73u8, 0x20u8, 0x66u8, 0x69u8, 0x6cu8, 0x65u8];
    assert(r@ == sentinel());
    r
}

/// Derives the 32-byte key of a passphrase and salt (Argon2id, 8 lanes,
/// 16 MiB, 8 passes).
pub fn derive_key(pass: &[u8], salt: &[u8]) -> (r: Result<Vec<u8>, Error>)
    ensures
        match r {
            Ok(k) => k@ == derived_key(pass@, salt@) && k@.len() == KEY_LEN,
            Err(e) => e is KeyDerivation,
        },
        password_fits(pass@) && salt@.len() == SALT_LEN ==> r is Ok,
{
    match argon2_hash(pass, salt, KDF_LANES, KDF_MEMORY_KIB, KDF_PASSES, KEY_LEN) {
        Some(k) => Ok(k),
        None => Err(Error::KeyDerivation),
    }
}

/// A text sealed under a 51-byte header and the key of `pass` opens to that text.
pub proof fn lemma_sealed_opens(salt: Seq<u8>, nonce: Seq<u8>, pass: Seq<u8>, p: Seq<u8>)
    requires
        salt.len() == SALT_LEN,
        nonce.len() == NONCE_LEN,
        xchacha_seal(derived_key(pass, salt), nonce, p).len() == p.len() + TAG_LEN,
    ensures
        opens_to(sealed_file(salt, nonce, pass, p), pass, p),
{
    let f = sealed_file(salt, nonce, pass, p);
    assert(salt_of(f) =~= salt);
    assert(nonce_of(f) =~= nonce);
}

/// Seals `plain` under `key` and puts the header in front.
fn seal_with_header(salt: &[u8], nonce: &[u8], key: &[u8], plain: &[u8]) -> (r: Result<
    Vec<u8>,
    Error,
>)
    requires
        salt@.len() == SALT_LEN,
        nonce@.len() == NONCE_LEN,
        key@.len() == KEY_LEN,
    ensures
        match r {
            Ok(f) => f@ == salt@ + nonce@ + xchacha_seal(key@, nonce@, plain@) && f@.len()
                == HEADER_LEN + plain@.len() + TAG_LEN,
            Err(e) => e is Encryption && !sealable(plain@),
        },
{
    match seal_last(key, nonce, plain) {
        None => Err(Error::Encryption),
        Some(ct) => {
            let mut out = copy_range(salt, 0, salt.len());
            assert(salt@.subrange(0, salt@.len() as int) == salt@);
            append_bytes(&mut out, nonce);
            append_bytes(&mut out, ct.as_slice());
            Ok(out)
        },
    }
}

/// Builds a new database file from a given salt and nonce: the sentinel
/// text sealed under the key of `password`. A database that exists already
/// is refused.
pub fn create_file_with(
    name: &str,
    password: &str,
    exists: bool,
    salt: Vec<u8>,
    nonce: Vec<u8>,
) -> (r: Result<Vec<u8>, Error>)
    requires
        salt@.len() == SALT_LEN,
        nonce@.len() == NONCE_LEN,
    ensures
        exists ==> (r matches Err(Error::AlreadyExists(n)) && n@ == name@),
        !exists ==> match r {
            Ok(f) => f@ == sealed_file(salt@, nonce@, password.spec_bytes(), sentinel())
                && opens_to(f@, password.spec_bytes(), sentinel()) && f@.len() == HEADER_LEN + 9
                + TAG_LEN,
            Err(e) => e is KeyDerivation && !password_fits(password.spec_bytes()),
        },
{
    let mut salt = salt;
    let mut nonce = nonce;
    if exists {
        let mut none: Vec<u8> = Vec::new();
        wipe_keys(&mut salt, &mut nonce, &mut none);
        return Err(Error::AlreadyExists(String::from_str(name)));
    }
    let ghost (s0, n0) = (salt@, nonce@);
    let mut key = match derive_key(password.as_bytes(), salt.as_slice()) {
        Ok(k) => k,
        Err(e) => {
            let mut none: Vec<u8> = Vec::new();
            wipe_keys(&mut salt, &mut nonce, &mut none);
            return Err(e);
        },
    };
    let msg = sentinel_payload();
    let r = seal_with_header(salt.as_slice(), nonce.as_slice(), key.as_slice(), msg.as_slice());
    wipe_keys(&mut salt, &mut nonce, &mut key);
    proof {
        if r is Ok {
            lemma_sealed_opens(s0, n0, password.spec_bytes(), sentinel());
        }
    }
    r
}

/// Builds a new database file under a fresh random salt and nonce; see
/// `create_file_with`.
pub fn create_file(name: &str, password: &str, exists: bool) -> (r: Result<Vec<u8>, Error>)
    ensures
        exists ==> (r matches Err(Error::AlreadyExists(n)) && n@ == name@),
        !exists ==> match r {
            Ok(f) => f@ == sealed_file(salt_of(f@), nonce_of(f@), password.spec_bytes(), sentinel())
                && opens_to(f@, password.spec_bytes(), sentinel()) && f@.len() == HEADER_LEN + 9
                + TAG_LEN,
            Err(e) => (e is KeyDerivation && !password_fits(password.spec_bytes()))
                || e is Randomness,
        },
{
    if exists {
        return Err(Error::AlreadyExists(String::from_str(name)));
    }
    let salt = match random_bytes(SALT_LEN) {
        Some(b) => b,
        None => return Err(Error::Randomness),
    };
    let nonce = match random_bytes(NONCE_LEN) {
        Some(b) => b,
        None => return Err(Error::Randomness),
    };
    let ghost (s, n) = (salt@, nonce@);
    let r = create_file_with(name, password, exists, salt, nonce);
    proof {
        if r is Ok {
            let f = r->Ok_0;
            assert(salt_of(f@) == s);
            assert(nonce_of(f@) == n);
        }
    }
    r
}

/// Derives the key of the file and opens its records; the key is handed
/// back for resealing, every other copy of key material is wiped.
fn unlock(file: &[u8], password: &str) -> (r: Result<(Vec<u8>, Vec<u8>), Error>)
    ensures
        match r {
            Ok((key, plain)) => unlock_spec(file@, password.spec_bytes()) == Ok::<Seq<u8>, Error>(
                plain@,
            ) && key@ == derived_key(password.spec_bytes(), salt_of(file@)) && key@.len()
                == KEY_LEN && file@.len() >= HEADER_LEN,
            Err(e) => key_failure(r, password.spec_bytes()) || unlock_spec(
                file@,
                password.spec_bytes(),
            ) == Err::<Seq<u8>, Error>(e),
        },
        opens_uniquely(file@, password.spec_bytes()),
{
    let ghost pass = password.spec_bytes();
    if file.len() < SALT_LEN {
        return Err(Error::Salt);
    }
    if file.len() < HEADER_LEN {
        return Err(Error::Nonce);
    }
    let mut salt = copy_range(file, 0, SALT_LEN);
    let mut nonce = copy_range(file, SALT_LEN, HEADER_LEN);
    let body = copy_range(file, HEADER_LEN, file.len());
    let mut key = match derive_key(password.as_bytes(), salt.as_slice()) {
        Ok(k) => k,
        Err(e) => {
            let mut none: Vec<u8> = Vec::new();
            wipe_keys(&mut salt, &mut nonce, &mut none);
            return Err(e);
        },
    };
    proof {
        assert forall|p: Seq<u8>| #[trigger] resealed(file@, pass, p) == file@ implies
            xchacha_seal(key@, nonce@, p) == body@ by {
            let f = resealed(file@, pass, p);
            assert(body@ == f.subrange(HEADER_LEN as int, f.len() as int));
            assert(f.subrange(HEADER_LEN as int, f.len() as int) == xchacha_seal(key@, nonce@, p));
        }
    }
    let opened = open_last(key.as_slice(), nonce.as_slice(), body.as_slice());
    proof {
        if opened is Some {
            let q = opened->Some_0;
            {
                assert(file@ =~= salt@ + nonce@ + body@);
                assert(opens_to(file@, pass, q@));
                assert forall|p: Seq<u8>| #[trigger] opens_to(file@, pass, p) implies p == q@ by {}
                let c = choose|p: Seq<u8>| #[trigger] opens_to(file@, pass, p);
                assert(opened_text(file@, pass) == Some(q@));
            }
        } else {
            {
                assert forall|p: Seq<u8>| !#[trigger] opens_to(file@, pass, p) by {}
                assert(opened_text(file@, pass) is None);
            }
        }
    }
    zero_out(&mut salt);
    zero_out(&mut nonce);
    match opened {
        None => {
            zero_out(&mut key);
            Err(Error::Authentication)
        },
        Some(plain) => {
            if is_utf8(plain.as_slice()) {
                Ok((key, plain))
            } else {
                zero_out(&mut key);
                Err(Error::Encoding)
            }
        },
    }
}


/// Opens the record text of a database file. A file that this passphrase
/// opens opens to one text, and that text comes back.
pub fn open_records(file: &[u8], password: &str) -> (r: Result<Vec<u8>, Error>)
    ensures
        key_failure(r, password.spec_bytes()) || match unlock_spec(file@, password.spec_bytes()) {
            Ok(p) => r matches Ok(q) && q@ == p,
            Err(e) => r == Err::<Vec<u8>, Error>(e),
        },
        opens_uniquely(file@, password.spec_bytes()),
{
    match unlock(file, password) {
        Ok((key, plain)) => {
            let mut key = key;
            zero_out(&mut key);
            Ok(plain)
        },
        Err(e) => Err(e),
    }
}

/// Looks up the secret of `username` in a database file: `None` when it
/// has no record.
pub fn copy_pass(file: &[u8], username: &str, password: &str) -> (r: Result<
    Option<Vec<u8>>,
    Error,
>)
    ensures
        key_failure(r, password.spec_bytes()) || match unlock_spec(file@, password.spec_bytes()) {
            Ok(p) => r matches Ok(v) && opt_view(v) == lookup_spec(p, username.spec_bytes()),
            Err(e) => r == Err::<Option<Vec<u8>>, Error>(e),
        },
        opens_uniquely(file@, password.spec_bytes()),
{
    match unlock(file, password) {
        Ok((key, plain)) => {
            let mut key = key;
            zero_out(&mut key);
            Ok(lookup(plain.as_slice(), username.as_bytes()))
        },
        Err(e) => Err(e),
    }
}

/// Sets the secret of `username` to `secret` in a database file and hands
/// back the file resealed under the same salt and nonce, which opens to the
/// new text.
pub fn upsert_content_with(file: &[u8], password: &str, username: &str, secret: &str) -> (r:
    Result<Vec<u8>, Error>)
    ensures
        key_failure(r, password.spec_bytes()) || match unlock_spec(file@, password.spec_bytes()) {
            Ok(p) => {
                let t = upsert_spec(p, username.spec_bytes(), secret.spec_bytes());
                match r {
                    Ok(f) => f@ == resealed(file@, password.spec_bytes(), t) && opens_to(
                        f@,
                        password.spec_bytes(),
                        t,
                    ) && f@.len() == HEADER_LEN + t.len() + TAG_LEN,
                    Err(e) => e is Encryption && !sealable(t),
                }
            },
            Err(e) => r == Err::<Vec<u8>, Error>(e),
        },
        opens_uniquely(file@, password.spec_bytes()),
{
    match unlock(file, password) {
        Ok((key, plain)) => {
            let mut key = key;
            let updated = upsert(plain.as_slice(), username.as_bytes(), secret.as_bytes());
            let mut salt = copy_range(file, 0, SALT_LEN);
            let mut nonce = copy_range(file, SALT_LEN, HEADER_LEN);
            let ghost (s0, n0) = (salt@, nonce@);
            let r = seal_with_header(
                salt.as_slice(),
                nonce.as_slice(),
                key.as_slice(),
                updated.as_slice(),
            );
            wipe_keys(&mut salt, &mut nonce, &mut key);
            proof {
                if r is Ok {
                    lemma_sealed_opens(s0, n0, password.spec_bytes(), updated@);
                }
            }
            r
        },
        Err(e) => Err(e),
    }
}

/// Sets the secret of `username` to a fresh secret of `length` characters
/// from the base alphabet, and hands back the resealed file, which opens to
/// the new text.
pub fn upsert_content(file: &[u8], password: &str, username: &str, length: u16) -> (r: Result<
    Vec<u8>,
    Error,
>)
    ensures
        key_failure(r, password.spec_bytes()) || match unlock_spec(file@, password.spec_bytes()) {
            Ok(p) => exists|s: Seq<char>|
                s.len() == length && (forall|i: int|
                    0 <= i < s.len() ==> alphabet(DictType::Base).contains(#[trigger] s[i]))
                    && match r {
                    Ok(f) => {
                        let t = upsert_spec(p, username.spec_bytes(), encode_utf8(s));
                        f@ == resealed(file@, password.spec_bytes(), t) && opens_to(
                            f@,
                            password.spec_bytes(),
                            t,
                        ) && f@.len() == HEADER_LEN + t.len() + TAG_LEN
                    },
                    Err(e) => e is Encryption && !sealable(
                        upsert_spec(p, username.spec_bytes(), encode_utf8(s)),
                    ),
                },
            Err(e) => r == Err::<Vec<u8>, Error>(e),
        },
        opens_uniquely(file@, password.spec_bytes()),
{
    let secret = generate_string(DictType::Base, length);
    let text = secret.as_str();
    let r = upsert_content_with(file, password, username, text);
    proof {
        assert(text.spec_bytes() == encode_utf8(secret@));
    }
    r
}

/// Removes the record of `username` from a database file. The flag says
/// whether there was one; without one the file comes back unchanged, with
/// one the resealed file opens to the shorter text.
pub fn del_pass(file: &[u8], username: &str, password: &str) -> (r: Result<(Vec<u8>, bool), Error>)
    ensures
        key_failure(r, password.spec_bytes()) || match unlock_spec(file@, password.spec_bytes()) {
            Ok(p) => {
                let (t, found) = delete_spec(p, username.spec_bytes());
                match r {
                    Ok((f, fl)) => fl == found && (found ==> f@ == resealed(
                        file@,
                        password.spec_bytes(),
                        t,
                    ) && opens_to(f@, password.spec_bytes(), t) && f@.len() == HEADER_LEN
                        + t.len() + TAG_LEN) && (!found ==> f@ == file@),
                    Err(e) => e is Encryption && found && !sealable(t),
                }
            },
            Err(e) => r == Err::<(Vec<u8>, bool), Error>(e),
        },
        opens_uniquely(file@, password.spec_bytes()),
{
    match unlock(file, password) {
        Ok((key, plain)) => {
            let mut key = key;
            let (updated, found) = delete(plain.as_slice(), username.as_bytes());
            if !found {
                zero_out(&mut key);
                assert(file@.subrange(0, file@.len() as int) == file@);
                return Ok((copy_range(file, 0, file.len()), false));
            }
            let mut salt = copy_range(file, 0, SALT_LEN);
            let mut nonce = copy_range(file, SALT_LEN, HEADER_LEN);
            let ghost (s0, n0) = (salt@, nonce@);
            let r = seal_with_header(
                salt.as_slice(),
                nonce.as_slice(),
                key.as_slice(),
                updated.as_slice(),
            );
            wipe_keys(&mut salt, &mut nonce, &mut key);
            proof {
                if r is Ok {
                    lemma_sealed_opens(s0, n0, password.spec_bytes(), updated@);
                }
            }
            match r {
                Ok(f) => Ok((f, true)),
                Err(e) => Err(e),
            }
        },
        Err(e) => Err(e),
    }
}

} // verus!
