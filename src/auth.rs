//! Password credentials: argon2id digests with a server secret, kept as
//! fixed-size digest and salt.
use argon2::password_hash::rand_core::{OsRng, RngCore};
use argon2::password_hash::{Error as PhError, Output, PasswordHash, PasswordHasher, PasswordVerifier, SaltString};
use argon2::{Algorithm, Argon2, Params, Version};
use vstd::prelude::*;

verus! {

pub const HASH_LEN: usize = 64;

pub const SALT_LEN: usize = 48;

/// Memory cost in KiB, iterations and lanes of the digest, and its length.
pub const MEMORY_KIB: u32 = 4096;

pub const ITERATIONS: u32 = 12;

pub const LANES: u32 = 4;

/// The argon2id (version 0x13) digest of a password under a secret, with
/// costs (memory KiB, iterations, lanes, output length) and a salt; `None`
/// where argon2 refuses the inputs.
pub uninterp spec fn argon2id_digest(
    secret: Seq<u8>,
    cost: (u32, u32, u32, usize),
    password: Seq<char>,
    salt: Seq<u8>,
) -> Option<Seq<u8>>;

/// Whether argon2id (version 0x13) verification accepts a password against
/// a stored digest and salt: `Some(true)` on a match, `Some(false)` on a
/// mismatch, `None` where argon2 refuses the inputs.
pub uninterp spec fn argon2id_verdict(
    secret: Seq<u8>,
    cost: (u32, u32, u32, usize),
    password: Seq<char>,
    salt: Seq<u8>,
    hash: Seq<u8>,
) -> Option<bool>;

/// Relies on `argon2::PasswordHasher::hash_password` (argon2 0.5): the
/// digest depends on the secret, the costs, the password bytes and the salt
/// alone.
#[verifier::external_body]
fn argon2_digest(secret: &[u8], cost: (u32, u32, u32, usize), password: &str, salt: &[u8; SALT_LEN]) -> (r:
    Option<[u8; HASH_LEN]>)
    ensures
        r matches Some(h) ==> argon2id_digest(secret@, cost, password@, salt@) == Some(h@),
        r is None ==> !(argon2id_digest(secret@, cost, password@, salt@) matches Some(d) && d.len()
            == HASH_LEN),
{
    let params = Params::new(cost.0, cost.1, cost.2, Some(cost.3)).ok()?;
    let a2 = Argon2::new_with_secret(secret, Algorithm::Argon2id, Version::V0x13, params).ok()?;
    let salt_str = SaltString::encode_b64(salt).ok()?;
    let phc = a2.hash_password(password.as_bytes(), salt_str.as_salt()).ok()?;
    phc.hash?.as_bytes().try_into().ok()
}

/// Relies on `argon2::PasswordVerifier::verify_password` (argon2 0.5): the
/// verdict depends on the secret, the costs, the password bytes, the salt
/// and the stored digest alone; a mismatch is `Error::Password`.
#[verifier::external_body]
fn argon2_verify(
    secret: &[u8],
    cost: (u32, u32, u32, usize),
    password: &str,
    salt: &[u8; SALT_LEN],
    hash: &[u8; HASH_LEN],
) -> (r: Option<bool>)
    ensures
        r == argon2id_verdict(secret@, cost, password@, salt@, hash@),
        argon2id_digest(secret@, cost, password@, salt@) == Some(hash@) ==> r == Some(true),
{
    let params = Params::new(cost.0, cost.1, cost.2, Some(cost.3)).ok()?;
    let a2 = Argon2::new_with_secret(secret, Algorithm::Argon2id, Version::V0x13, params).ok()?;
    let salt_str = SaltString::encode_b64(salt).ok()?;
    let phc = PasswordHash {
        algorithm: Algorithm::Argon2id.ident(),
        version: Some(Version::V0x13.into()),
        params: a2.params().try_into().ok()?,
        salt: Some(salt_str.as_salt()),
        hash: Some(Output::new(hash).ok()?),
    };
    match a2.verify_password(password.as_bytes(), &phc) {
        Err(PhError::Password) => Some(false),
        r => r.ok().map(|()| true),
    }
}

/// Relies on `rand_core::OsRng::try_fill_bytes`: bytes from the operating
/// system's generator, or `None` when it reports an error; nothing is known
/// of their values.
#[verifier::external_body]
fn random_salt() -> (r: Option<[u8; SALT_LEN]>) {
    let mut salt = [0u8; SALT_LEN];
    OsRng.try_fill_bytes(&mut salt).ok()?;
    Some(salt)
}

/// The value of one hexadecimal digit, either case.
pub open spec fn hex_digit(c: char) -> Option<u8> {
    if '0' <= c && c <= '9' {
        Some((c as u32 - '0' as u32) as u8)
    } else if 'a' <= c && c <= 'f' {
        Some((c as u32 - 'a' as u32 + 10) as u8)
    } else if 'A' <= c && c <= 'F' {
        Some((c as u32 - 'A' as u32 + 10) as u8)
    } else {
        None
    }
}

/// An even number of hexadecimal digits.
pub open spec fn is_hex(s: Seq<char>) -> bool {
    s.len() % 2 == 0 && forall|i: int| 0 <= i < s.len() ==> (#[trigger] hex_digit(s[i])) is Some
}

/// The bytes that pairs of hexadecimal digits spell, high digit first.
pub open spec fn hex_bytes(s: Seq<char>) -> Seq<u8> {
    Seq::new(
        s.len() / 2,
        |i: int| (16 * hex_digit(s[2 * i]).unwrap() + hex_digit(s[2 * i + 1]).unwrap()) as u8,
    )
}

/// Relies on `hex::decode`: an input of even length whose characters are all
/// hexadecimal digits, of either case, decodes pair by pair, high digit
/// first; any other input is an error.
#[verifier::external_body]
fn decode_hex(s: &str) -> (r: Option<Vec<u8>>)
    ensures
        r is Some <==> is_hex(s@),
        r matches Some(b) ==> b@ == hex_bytes(s@),
{
    hex::decode(s).ok()
}

/// Why a credential operation failed.
#[derive(Debug, PartialEq, Eq, Structural, Clone, Copy)]
pub enum AuthError {
    /// The password does not match the stored digest.
    WrongPassword,
    /// argon2 refused the inputs or the configuration.
    Failure,
    /// The operating system's generator gave no salt.
    NoRandomness,
}

/// The hashing configuration, built once at startup: the server secret and
/// the costs.
pub struct HashConfig {
    pub secret: Vec<u8>,
}

impl HashConfig {
    /// The costs every digest of this library uses.
    pub open spec fn cost() -> (u32, u32, u32, usize) {
        (MEMORY_KIB, ITERATIONS, LANES, HASH_LEN)
    }

    /// A configuration from the secret written in hexadecimal; `None` when it
    /// is not hexadecimal.
    pub fn from_hex(secret_hex: &str) -> (r: Option<HashConfig>)
        ensures
            r is Some <==> is_hex(secret_hex@),
            r matches Some(c) ==> c.secret@ == hex_bytes(secret_hex@),
    {
        match decode_hex(secret_hex) {
            Some(secret) => Some(HashConfig { secret }),
            None => None,
        }
    }
}

/// A stored credential: a digest and the salt it was made with.
pub struct Hashed {
    pub hash: [u8; HASH_LEN],
    pub salt: [u8; SALT_LEN],
}

impl Hashed {
    pub fn new(hash: [u8; HASH_LEN], salt: [u8; SALT_LEN]) -> (r: Self)
        ensures
            r.hash == hash,
            r.salt == salt,
    {
        Self { hash, salt }
    }

    /// A credential from stored bytes, which must have the digest's and the
    /// salt's lengths.
    pub fn new_check_length(hash: &[u8], salt: &[u8]) -> (r: Self)
        requires
            hash@.len() == HASH_LEN,
            salt@.len() == SALT_LEN,
        ensures
            r.hash@ == hash@,
            r.salt@ == salt@,
    {
        let mut h = [0u8; HASH_LEN];
        let mut i: usize = 0;
        while i < HASH_LEN
            invariant
                i <= HASH_LEN,
                hash@.len() == HASH_LEN,
                h@.len() == HASH_LEN,
                forall|j: int| 0 <= j < i ==> #[trigger] h@[j] == hash@[j],
            decreases HASH_LEN - i,
        {
            h[i] = hash[i];
            i += 1;
        }
        let mut s = [0u8; SALT_LEN];
        let mut i: usize = 0;
        while i < SALT_LEN
            invariant
                i <= SALT_LEN,
                salt@.len() == SALT_LEN,
                s@.len() == SALT_LEN,
                forall|j: int| 0 <= j < i ==> #[trigger] s@[j] == salt@[j],
            decreases SALT_LEN - i,
        {
            s[i] = salt[i];
            i += 1;
        }
        assert(h@ =~= hash@);
        assert(s@ =~= salt@);
        Self { hash: h, salt: s }
    }
}

/// The outcome of a verification from argon2's verdict.
pub fn verdict_outcome(verdict: Option<bool>) -> (r: Result<(), AuthError>)
    ensures
        r == match verdict {
            Some(true) => Ok(()),
            Some(false) => Err(AuthError::WrongPassword),
            None => Err(AuthError::Failure),
        },
{
    match verdict {
        Some(true) => Ok(()),
        Some(false) => Err(AuthError::WrongPassword),
        None => Err(AuthError::Failure),
    }
}

/// Checks a password against a stored credential; a credential made from
/// the same password with the same configuration is accepted.
pub fn verify(config: &HashConfig, password: String, hash: Hashed) -> (r: Result<(), AuthError>)
    ensures
        r == match argon2id_verdict(config.secret@, HashConfig::cost(), password@, hash.salt@, hash.hash@) {
            Some(true) => Ok(()),
            Some(false) => Err(AuthError::WrongPassword),
            None => Err(AuthError::Failure),
        },
        argon2id_digest(config.secret@, HashConfig::cost(), password@, hash.salt@) == Some(hash.hash@)
            ==> r is Ok,
{
    let verdict = argon2_verify(
        config.secret.as_slice(),
        (MEMORY_KIB, ITERATIONS, LANES, HASH_LEN),
        password.as_str(),
        &hash.salt,
        &hash.hash,
    );
    verdict_outcome(verdict)
}

/// A credential for a password with a given salt.
pub fn hash_with_salt(config: &HashConfig, password: &str, salt: [u8; SALT_LEN]) -> (r: Result<Hashed, AuthError>)
    ensures
        r matches Ok(h) ==> h.salt == salt && argon2id_digest(
            config.secret@,
            HashConfig::cost(),
            password@,
            salt@,
        ) == Some(h.hash@),
        r matches Err(e) ==> e == AuthError::Failure && !(argon2id_digest(
            config.secret@,
            HashConfig::cost(),
            password@,
            salt@,
        ) matches Some(d) && d.len() == HASH_LEN),
{
    match argon2_digest(config.secret.as_slice(), (MEMORY_KIB, ITERATIONS, LANES, HASH_LEN), password, &salt) {
        Some(digest) => Ok(Hashed::new(digest, salt)),
        None => Err(AuthError::Failure),
    }
}

/// A credential for a password with a fresh random salt. It fails only when
/// the generator gives no salt, or when argon2 gives no digest for the salt
/// it gave.
pub fn hash(config: &HashConfig, password: &str) -> (r: Result<Hashed, AuthError>)
    ensures
        r matches Ok(h) ==> argon2id_digest(config.secret@, HashConfig::cost(), password@, h.salt@)
            == Some(h.hash@),
        r == Err::<Hashed, AuthError>(AuthError::Failure) ==> exists|s: Seq<u8>|
            s.len() == SALT_LEN && !(#[trigger] argon2id_digest(config.secret@, HashConfig::cost(), password@, s) matches Some(d)
                && d.len() == HASH_LEN),
        r matches Err(e) ==> e == AuthError::Failure || e == AuthError::NoRandomness,
{
    match random_salt() {
        Some(salt) => hash_with_salt(config, password, salt),
        None => Err(AuthError::NoRandomness),
    }
}

} // verus!
