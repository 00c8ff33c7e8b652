//! The hashing primitives behind one interface: a call that takes a cost and
//! either succeeds or fails.

use pbkdf2::password_hash::rand_core::{OsRng, RngCore};
use pbkdf2::password_hash::{PasswordHasher, Salt, SaltString};
use pbkdf2::{Params, Pbkdf2};
use vstd::prelude::*;
use crate::error::BenchError;

verus! {

/// The smallest cost that bcrypt accepts.
pub const BCRYPT_MIN_COST: u32 = 4;

/// The largest cost that bcrypt accepts.
pub const BCRYPT_MAX_COST: u32 = 31;

/// The number of random bytes in a PBKDF2 salt.
pub const PBKDF2_SALT_LENGTH: usize = 16;

/// The number of bytes PBKDF2 is asked to derive.
pub const PBKDF2_OUTPUT_LENGTH: usize = 32;

/// The hashing primitives the harness knows.
#[derive(Clone, Copy, Debug, PartialEq, Eq, Structural)]
pub enum Algorithm {
    /// bcrypt; the cost is the base-two logarithm of the number of rounds.
    Bcrypt,
    /// PBKDF2 with HMAC-SHA-256; the cost is the number of iterations.
    Pbkdf2,
}

/// Whether `cost` is a work factor that `algorithm` supports: 4 to 31 for
/// bcrypt, any positive iteration count for PBKDF2.
pub open spec fn cost_supported(algorithm: Algorithm, cost: u32) -> bool {
    match algorithm {
        Algorithm::Bcrypt => BCRYPT_MIN_COST <= cost <= BCRYPT_MAX_COST,
        Algorithm::Pbkdf2 => cost >= 1,
    }
}

impl Algorithm {
    /// Tells whether this algorithm supports `cost`.
    pub fn supports(&self, cost: u32) -> (b: bool)
        ensures
            b == cost_supported(*self, cost),
    {
        match self {
            Algorithm::Bcrypt => BCRYPT_MIN_COST <= cost && cost <= BCRYPT_MAX_COST,
            Algorithm::Pbkdf2 => cost >= 1,
        }
    }
}

/// `bcrypt::BcryptError`: why bcrypt refused or failed; never looked into.
#[verifier::external_type_specification]
#[verifier::external_body]
pub struct ExBcryptError(bcrypt::BcryptError);

/// `rand_core::Error`: why the random source failed; never looked into.
#[verifier::external_type_specification]
#[verifier::external_body]
pub struct ExRandError(pbkdf2::password_hash::rand_core::Error);

/// What `SaltString::encode_b64` makes of raw salt bytes: the salt as text,
/// or `None` where it reports an error.
pub uninterp spec fn salt_encoded(bytes: Seq<u8>) -> Option<Seq<char>>;

/// What `Pbkdf2::hash_password_customized` derives from a password and a
/// salt given as text: the key, or `None` where the salt is refused or the
/// derivation reports an error.
pub uninterp spec fn pbkdf2_derived(
    password: Seq<u8>,
    rounds: u32,
    output_length: usize,
    salt: Seq<char>,
) -> Option<Seq<u8>>;

/// `bcrypt::hash`: hashes `password` at `cost` under a salt that it draws
/// from the operating system. Claimed: a cost below 4 or above 31 is always
/// answered with an error. Nothing is claimed about the hash, nor that a cost
/// in range succeeds, since drawing the salt can fail.
#[verifier::external_body]
pub(crate) fn bcrypt_hash(password: &[u8], cost: u32) -> (r: Result<String, bcrypt::BcryptError>)
    ensures
        !(4 <= cost <= 31) ==> r is Err,
{
    bcrypt::hash(password, cost)
}

/// `RngCore::try_fill_bytes` on `OsRng`: overwrites the buffer with bytes
/// from the operating system's random source, or reports that the source
/// failed. Claimed: the buffer keeps its length. Nothing is claimed about the
/// bytes, nor about the outcome.
#[verifier::external_body]
pub(crate) fn os_random_fill(buffer: &mut Vec<u8>) -> (r: Result<(), pbkdf2::password_hash::rand_core::Error>)
    ensures
        final(buffer)@.len() == old(buffer)@.len(),
{
    OsRng.try_fill_bytes(buffer.as_mut_slice())
}

/// `SaltString::encode_b64`: encodes raw salt bytes as text. Claimed: the
/// outcome depends on the bytes alone. The salt is handed back as a string of
/// its own, and an error as `None`.
#[verifier::external_body]
pub(crate) fn salt_encode_b64(bytes: &[u8]) -> (r: Option<String>)
    ensures
        r is Some <==> salt_encoded(bytes@) is Some,
        r matches Some(salt) ==> salt_encoded(bytes@) == Some(salt@),
{
    match SaltString::encode_b64(bytes) {
        Ok(salt) => Some(salt.as_str().to_string()),
        Err(_) => None,
    }
}

/// `Pbkdf2::hash_password_customized` with the default algorithm identifier
/// and no version, on a salt that `Salt::from_b64` has read from `salt`:
/// derives `output_length` bytes from `password` and the salt in `rounds`
/// iterations. Claimed: the outcome depends on the four arguments alone. The
/// key is handed back as bytes; a salt that is refused and a derivation that
/// fails are both `None`.
#[verifier::external_body]
pub(crate) fn pbkdf2_hash_password(password: &[u8], rounds: u32, output_length: usize, salt: &str) -> (r:
    Option<Vec<u8>>)
    ensures
        r is Some <==> pbkdf2_derived(password@, rounds, output_length, salt@) is Some,
        r matches Some(key) ==> pbkdf2_derived(password@, rounds, output_length, salt@) == Some(key@),
{
    let salt = match Salt::from_b64(salt) {
        Ok(salt) => salt,
        Err(_) => return None,
    };
    match Pbkdf2.hash_password_customized(password, None, None, Params { rounds, output_length }, salt) {
        Ok(hash) => hash.hash.map(|key| key.as_bytes().to_vec()),
        Err(_) => None,
    }
}

/// Hashes `password` once with bcrypt at `cost` and throws the hash away.
///
/// A cost that bcrypt does not support is always a failure; a supported cost
/// fails only if bcrypt itself reports an error.
pub fn bcrypt_once(password: &[u8], cost: u32) -> (r: Result<(), BenchError>)
    ensures
        !cost_supported(Algorithm::Bcrypt, cost) ==> r is Err,
        r is Err ==> r == Err::<(), BenchError>(BenchError::PrimitiveFailure),
{
    match bcrypt_hash(password, cost) {
        Ok(_) => Ok(()),
        Err(_) => Err(BenchError::PrimitiveFailure),
    }
}

/// Whether PBKDF2 derives a key from `password` in `rounds` iterations under
/// the salt that the bytes `drawn` encode: the iterations must be positive,
/// the bytes must encode, and the derivation must succeed.
pub open spec fn pbkdf2_succeeds(password: Seq<u8>, rounds: u32, drawn: Seq<u8>) -> bool {
    &&& rounds >= 1
    &&& salt_encoded(drawn) is Some
    &&& pbkdf2_derived(password, rounds, PBKDF2_OUTPUT_LENGTH, salt_encoded(drawn)->0) is Some
}

/// Derives a key from `password` once with PBKDF2 in `rounds` iterations,
/// under the salt that the bytes `drawn` encode, and throws the key away.
///
/// Zero iterations are a failure, and nothing is encoded or derived for
/// them. So are bytes that do not encode to a salt the derivation takes.
pub fn pbkdf2_with_salt(password: &[u8], rounds: u32, drawn: &[u8]) -> (r: Result<(), BenchError>)
    ensures
        r is Ok <==> pbkdf2_succeeds(password@, rounds, drawn@),
        r is Err ==> r == Err::<(), BenchError>(BenchError::PrimitiveFailure),
{
    if rounds == 0 {
        return Err(BenchError::PrimitiveFailure);
    }
    let salt = match salt_encode_b64(drawn) {
        Some(salt) => salt,
        None => {
            return Err(BenchError::PrimitiveFailure);
        },
    };
    match pbkdf2_hash_password(password, rounds, PBKDF2_OUTPUT_LENGTH, salt.as_str()) {
        Some(_) => Ok(()),
        None => Err(BenchError::PrimitiveFailure),
    }
}

/// Derives a key from `password` once with PBKDF2 in `rounds` iterations,
/// under a salt drawn afresh from the operating system, and throws the key
/// away.
///
/// Zero iterations are always a failure, and nothing is drawn or derived for
/// them. Otherwise sixteen bytes are drawn, and the call succeeds exactly if
/// the draw does and [`pbkdf2_with_salt`] does on what was drawn.
pub fn pbkdf2_once(password: &[u8], rounds: u32) -> (r: Result<(), BenchError>)
    ensures
        !cost_supported(Algorithm::Pbkdf2, rounds) ==> r is Err,
        r is Err ==> r == Err::<(), BenchError>(BenchError::PrimitiveFailure),
        r is Ok ==> exists|drawn: Seq<u8>|
            drawn.len() == PBKDF2_SALT_LENGTH && #[trigger] pbkdf2_succeeds(password@, rounds, drawn),
{
    if rounds == 0 {
        return Err(BenchError::PrimitiveFailure);
    }
    let mut drawn: Vec<u8> = Vec::new();
    let mut i: usize = 0;
    while i < PBKDF2_SALT_LENGTH
        invariant
            i <= PBKDF2_SALT_LENGTH,
            drawn@.len() == i,
        decreases PBKDF2_SALT_LENGTH - i,
    {
        drawn.push(0u8);
        i = i + 1;
    }
    if os_random_fill(&mut drawn).is_err() {
        return Err(BenchError::PrimitiveFailure);
    }
    pbkdf2_with_salt(password, rounds, drawn.as_slice())
}

} // verus!
