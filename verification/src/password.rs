//! Password hashes with PBKDF2-HMAC-SHA256.
//!
//! A stored hash is 65 bytes: a version byte (always 1 for now), the 256-bit
//! derived key, and the 256-bit random salt. Keeping the version in the hash
//! lets the scheme change without touching old hashes.
use vstd::prelude::*;
use vstd::string::StringSliceAdditionalSpecFns;

verus! {

/// The length of the derived key and of the salt, in bytes.
pub const CREDENTIAL_LEN: usize = 32;

/// The number of PBKDF2 iterations.
pub const PBKDF2_ITER: u32 = 100_000;

/// The longest secret that the HMAC key schedule takes (SHA-256 takes at
/// most 2^64 bits of input).
pub open spec fn secret_fits(secret: Seq<u8>) -> bool {
    secret.len() < 0x2000_0000_0000_0000
}

/// Byte `i` of the key that PBKDF2-HMAC-SHA256 derives from a secret and a
/// salt with this many iterations, as `ring::pbkdf2` computes it. (Each
/// 32-byte block of the key is computed on its own, so a byte does not
/// depend on how long the key is.)
pub uninterp spec fn pbkdf2_sha256_byte(iterations: u32, salt: Seq<u8>, secret: Seq<u8>, i: int) -> u8;

/// The first `len` bytes of the key that PBKDF2-HMAC-SHA256 derives.
pub open spec fn pbkdf2_sha256(iterations: u32, salt: Seq<u8>, secret: Seq<u8>, len: nat) -> Seq<u8> {
    Seq::new(len, |i: int| pbkdf2_sha256_byte(iterations, salt, secret, i))
}

/// Derives a 32-byte key into `out` with `ring::pbkdf2::derive` and
/// `PBKDF2_HMAC_SHA256`. The key is only named: the contract says that
/// `out` then holds the bytes [`pbkdf2_sha256_byte`] of the arguments.
/// `derive` panics only on a secret or salt too long for the HMAC, which
/// `requires` rules out.
#[verifier::external_body]
fn pbkdf2_derive(iterations: u32, salt: &[u8], secret: &[u8], out: &mut [u8])
    requires
        iterations > 0,
        salt@.len() == 32,
        secret_fits(secret@),
        old(out)@.len() == 32,
    ensures
        final(out)@.len() == 32,
        forall|i: int|
            0 <= i < 32 ==> #[trigger] final(out)@[i] == pbkdf2_sha256_byte(
                iterations,
                salt@,
                secret@,
                i,
            ),
{
    ring::pbkdf2::derive(
        ring::pbkdf2::PBKDF2_HMAC_SHA256,
        std::num::NonZeroU32::new(iterations).unwrap(),
        salt,
        secret,
        out,
    )
}

/// Checks a 32-byte key with `ring::pbkdf2::verify` and
/// `PBKDF2_HMAC_SHA256`: it succeeds exactly when the key derived from the
/// secret and the salt (as by `derive`) equals `previously_derived`.
#[verifier::external_body]
fn pbkdf2_verify(iterations: u32, salt: &[u8], secret: &[u8], previously_derived: &[u8]) -> (ok:
    bool)
    requires
        iterations > 0,
        salt@.len() == 32,
        secret_fits(secret@),
        previously_derived@.len() == 32,
    ensures
        ok == (forall|i: int|
            0 <= i < 32 ==> #[trigger] previously_derived@[i] == pbkdf2_sha256_byte(
                iterations,
                salt@,
                secret@,
                i,
            )),
{
    ring::pbkdf2::verify(
        ring::pbkdf2::PBKDF2_HMAC_SHA256,
        std::num::NonZeroU32::new(iterations).unwrap(),
        salt,
        secret,
        previously_derived,
    ).is_ok()
}

/// Fills `out` with random bytes from `ring::rand::SystemRandom`. Returns
/// whether the system's generator succeeded. The bytes are random: the
/// contract says only that the slice keeps its length.
#[verifier::external_body]
fn fill_random(out: &mut [u8]) -> (ok: bool)
    ensures
        final(out)@.len() == old(out)@.len(),
{
    ring::rand::SecureRandom::fill(&ring::rand::SystemRandom::new(), out).is_ok()
}

/// The three fields of a stored hash.
pub struct Parts<'a> {
    pub version: &'a mut [u8],
    pub hash: &'a mut [u8],
    pub salt: &'a mut [u8],
}

/// Splits a stored hash into its version byte, derived key and salt.
pub fn parts(whole: &mut [u8]) -> (p: Parts<'_>)
    requires
        old(whole)@.len() == 1 + 2 * CREDENTIAL_LEN,
    ensures
        p.version@ == old(whole)@.subrange(0, 1),
        p.hash@ == old(whole)@.subrange(1, 33),
        p.salt@ == old(whole)@.subrange(33, 65),
        final(whole)@ == final(p.version)@ + final(p.hash)@ + final(p.salt)@,
{
    let (version, whole_) = whole.split_at_mut(1);
    let (hash, salt) = whole_.split_at_mut(CREDENTIAL_LEN);
    Parts { version, hash, salt }
}

/// The stored hash of a password with a given salt: version 1, the derived
/// key, the salt.
pub open spec fn hash_with_salt(password: Seq<u8>, salt: Seq<u8>) -> Seq<u8> {
    seq![1u8] + pbkdf2_sha256(PBKDF2_ITER, salt, password, 32) + salt
}

/// The stored hash of `password` with the salt `salt`.
pub fn password_hash_with_salt(password: &str, salt: &[u8]) -> (r: Vec<u8>)
    requires
        salt@.len() == CREDENTIAL_LEN,
        secret_fits(password.spec_bytes()),
    ensures
        r@ == hash_with_salt(password.spec_bytes(), salt@),
{
    let mut result: Vec<u8> = Vec::new();
    result.push(1u8);
    let mut hash: Vec<u8> = Vec::new();
    let mut i: usize = 0;
    while i < CREDENTIAL_LEN
        invariant
            i <= CREDENTIAL_LEN,
            hash@.len() == i,
        decreases CREDENTIAL_LEN - i,
    {
        hash.push(0u8);
        i += 1;
    }
    pbkdf2_derive(PBKDF2_ITER, salt, password.as_bytes(), hash.as_mut_slice());
    assert(hash@ =~= pbkdf2_sha256(PBKDF2_ITER, salt@, password.spec_bytes(), 32));
    let mut j: usize = 0;
    while j < CREDENTIAL_LEN
        invariant
            j <= CREDENTIAL_LEN,
            hash@ == pbkdf2_sha256(PBKDF2_ITER, salt@, password.spec_bytes(), 32),
            result@ == seq![1u8] + hash@.take(j as int),
        decreases CREDENTIAL_LEN - j,
    {
        result.push(hash[j]);
        assert(hash@.take(j + 1) =~= hash@.take(j as int).push(hash@[j as int]));
        j += 1;
    }
    let mut k: usize = 0;
    while k < CREDENTIAL_LEN
        invariant
            k <= CREDENTIAL_LEN,
            salt@.len() == CREDENTIAL_LEN,
            result@ == seq![1u8] + hash@ + salt@.take(k as int),
            hash@.len() == 32,
        decreases CREDENTIAL_LEN - k,
    {
        result.push(salt[k]);
        assert(salt@.take(k + 1) =~= salt@.take(k as int).push(salt@[k as int]));
        k += 1;
    }
    assert(hash@.take(32) =~= hash@);
    assert(salt@.take(32) =~= salt@);
    result
}

/// A fresh stored hash of `password`: version 1, the derived key, and a
/// random salt. `None` when the system's random generator fails.
pub fn password_hash(password: &str) -> (r: Option<Vec<u8>>)
    requires
        secret_fits(password.spec_bytes()),
    ensures
        r matches Some(h) ==> h@.len() == 1 + 2 * CREDENTIAL_LEN && h@ == hash_with_salt(
            password.spec_bytes(),
            h@.subrange(33, 65),
        ),
{
    let mut salt: Vec<u8> = Vec::new();
    let mut i: usize = 0;
    while i < CREDENTIAL_LEN
        invariant
            i <= CREDENTIAL_LEN,
            salt@.len() == i,
        decreases CREDENTIAL_LEN - i,
    {
        salt.push(0u8);
        i += 1;
    }
    if !fill_random(salt.as_mut_slice()) {
        return None;
    }
    let h = password_hash_with_salt(password, salt.as_slice());
    assert(h@.subrange(33, 65) =~= salt@);
    Some(h)
}

/// The outcome of checking a password.
#[derive(Clone, Copy, Debug, PartialEq, Eq, Structural)]
pub enum PasswordResult {
    Passed,
    Failed,
}

/// Whether `password` matches the stored hash `stored`.
pub open spec fn password_matches(password: Seq<u8>, stored: Seq<u8>) -> bool {
    pbkdf2_sha256(PBKDF2_ITER, stored.subrange(33, 65), password, 32) == stored.subrange(1, 33)
}

/// Checks `password` against a stored hash of version 1: it passes when
/// the key derived from it with the stored salt is the stored key.
pub fn password_verify(password: &str, password_hash: &mut [u8]) -> (r: PasswordResult)
    requires
        old(password_hash)@.len() == 1 + 2 * CREDENTIAL_LEN,
        old(password_hash)@[0] == 1,
        secret_fits(password.spec_bytes()),
    ensures
        final(password_hash)@ == old(password_hash)@,
        (r == PasswordResult::Passed) == password_matches(
            password.spec_bytes(),
            old(password_hash)@,
        ),
{
    let ghost stored = password_hash@;
    let p = parts(password_hash);
    let ok = pbkdf2_verify(PBKDF2_ITER, p.salt, password.as_bytes(), p.hash);
    assert(p.version@ + p.hash@ + p.salt@ =~= stored);
    assert(ok == (pbkdf2_sha256(PBKDF2_ITER, stored.subrange(33, 65), password.spec_bytes(), 32)
        =~= stored.subrange(1, 33)));
    if ok {
        PasswordResult::Passed
    } else {
        PasswordResult::Failed
    }
}

/// A password checks against a hash made of it, whatever the salt.
pub proof fn law_verify_own_hash(password: Seq<u8>, salt: Seq<u8>)
    requires
        salt.len() == 32,
    ensures
        password_matches(password, hash_with_salt(password, salt)),
{
    let h = hash_with_salt(password, salt);
    assert(h.subrange(33, 65) =~= salt);
    assert(h.subrange(1, 33) =~= pbkdf2_sha256(PBKDF2_ITER, salt, password, 32));
}

/// Another password fails against a hash made of a password, except when
/// the two derive the same key with that salt (a PBKDF2-HMAC-SHA256
/// collision, the only way for different passwords to pass).
pub proof fn law_verify_other_password(password: Seq<u8>, other: Seq<u8>, salt: Seq<u8>)
    requires
        salt.len() == 32,
        pbkdf2_sha256(PBKDF2_ITER, salt, other, 32) != pbkdf2_sha256(
            PBKDF2_ITER,
            salt,
            password,
            32,
        ),
    ensures
        !password_matches(other, hash_with_salt(password, salt)),
{
    let h = hash_with_salt(password, salt);
    assert(h.subrange(33, 65) =~= salt);
    assert(h.subrange(1, 33) =~= pbkdf2_sha256(PBKDF2_ITER, salt, password, 32));
}

} // verus!
