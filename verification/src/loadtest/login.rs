//! How a bot logs in.
use crate::auth;
use crate::text;
use vstd::prelude::*;
use wow_srp::client::SrpClientChallenge;
use wow_srp::PublicKey;

verus! {

/// What a login leads to.
#[derive(Debug)]
pub struct AuthOutcome {
    pub session_key: [u8; 40],
    pub realm_address: String,
}

/// What a login server challenges with.
#[derive(Debug)]
pub struct ServerChallenge {
    pub server_public_key: [u8; 32],
    pub generator: Vec<u8>,
    pub large_safe_prime: Vec<u8>,
}

/// A challenge that can be answered.
pub struct Challenge {
    pub server_public_key: PublicKey,
    pub generator: u8,
    pub large_safe_prime: [u8; 32],
}

/// Why a login fails.
#[derive(Debug, Clone, Copy, PartialEq, Eq, Structural)]
pub enum LoginError {
    EmptyGenerator,
    BadPrime { len: usize },
    BadName,
    BadPublicKey,
    BadServerProof,
    NoRealm,
}

/// The first thing that is wrong with a challenge, for a bot of that name.
pub open spec fn fault(c: ServerChallenge, username: Seq<char>) -> Option<LoginError> {
    if c.generator@.len() == 0 {
        Some(LoginError::EmptyGenerator)
    } else if c.large_safe_prime@.len() != 32 {
        Some(LoginError::BadPrime { len: c.large_safe_prime@.len() as usize })
    } else if !auth::can_log_in(username) {
        Some(LoginError::BadName)
    } else if auth::key_from(c.server_public_key@) is None {
        Some(LoginError::BadPublicKey)
    } else {
        None
    }
}

fn thirty_two(v: &Vec<u8>) -> (r: [u8; 32])
    requires
        v@.len() == 32,
    ensures
        r@ == v@,
{
    let mut r: [u8; 32] = [0; 32];
    let mut i: usize = 0;
    while i < 32
        invariant
            i <= 32,
            v@.len() == 32,
            forall|j: int| 0 <= j < i ==> r@[j] == v@[j],
        decreases 32 - i,
    {
        r[i] = v[i];
        i += 1;
    }
    assert(r@ =~= v@);
    r
}

/// Check a challenge.
pub fn check_challenge(c: &ServerChallenge, username: &str) -> (r: Result<Challenge, LoginError>)
    ensures
        match r {
            Ok(a) => fault(*c, username@) is None && auth::key_from(c.server_public_key@) == Some(a.server_public_key)
                && a.generator == c.generator@[0] && a.large_safe_prime@
                == c.large_safe_prime@,
            Err(e) => fault(*c, username@) == Some(e),
        },
{
    if c.generator.len() == 0 {
        return Err(LoginError::EmptyGenerator);
    }
    if c.large_safe_prime.len() != 32 {
        return Err(LoginError::BadPrime { len: c.large_safe_prime.len() });
    }
    if auth::normalized(username).is_none() {
        return Err(LoginError::BadName);
    }
    match auth::public_key(c.server_public_key) {
        Some(key) => Ok(
            Challenge {
                server_public_key: key,
                generator: c.generator[0],
                large_safe_prime: thirty_two(&c.large_safe_prime),
            },
        ),
        None => Err(LoginError::BadPublicKey),
    }
}

/// `wow_srp::client::SrpClientChallenge`, a login that waits for the proof of the server.
#[verifier::external_type_specification]
#[verifier::external_body]
pub struct ExSrpClientChallenge(SrpClientChallenge);

/// What proves that the server knows the password.
pub uninterp spec fn server_proof(c: SrpClientChallenge) -> Seq<u8>;

/// The key that a bot agrees upon with the server.
pub uninterp spec fn client_key(c: SrpClientChallenge) -> Seq<u8>;

/// `SrpClientChallenge::verify_server_proof` and `SrpClient::session_key` of `wow_srp`:
/// the key that was agreed upon, if the proof is that of the server.
#[verifier::external_body]
fn verify_server_proof(c: SrpClientChallenge, proof: [u8; 20]) -> (r: Option<[u8; 40]>)
    ensures
        r is Some <==> proof@ == server_proof(c),
        r is Some ==> r->0@ == client_key(c),
{
    c.verify_server_proof(proof).ok().map(|client| *client.session_key())
}

/// Check what the server proves itself with. A server without the proof is not trusted.
pub fn accept_server(c: SrpClientChallenge, proof: [u8; 20]) -> (r: Result<[u8; 40], LoginError>)
    ensures
        match r {
            Ok(key) => proof@ == server_proof(c) && key@ == client_key(c),
            Err(e) => proof@ != server_proof(c) && e == LoginError::BadServerProof,
        },
{
    match verify_server_proof(c, proof) {
        Some(key) => Ok(key),
        None => Err(LoginError::BadServerProof),
    }
}

/// What a login that succeeded leads to: the first realm.
pub fn first_realm(session_key: [u8; 40], addresses: &Vec<String>) -> (r: Result<AuthOutcome, LoginError>)
    ensures
        match r {
            Ok(o) => addresses@.len() > 0 && o.session_key == session_key && o.realm_address@ == addresses@[0]@,
            Err(e) => addresses@.len() == 0 && e == LoginError::NoRealm,
        },
{
    if addresses.len() == 0 {
        return Err(LoginError::NoRealm);
    }
    Ok(AuthOutcome { session_key, realm_address: addresses[0].clone() })
}

impl LoginError {
    pub open spec fn says(self) -> Seq<char> {
        match self {
            LoginError::EmptyGenerator => "auth: empty generator in challenge response"@,
            LoginError::BadPrime { len } => "auth: expected 32-byte large safe prime, got "@ + text::decimal(
                len as nat,
            ) + " bytes"@,
            LoginError::BadName => "auth: username not normalizable"@,
            LoginError::BadPublicKey => "auth: bad server pubkey"@,
            LoginError::BadServerProof => "auth: server proof mismatch"@,
            LoginError::NoRealm => "auth: empty realm list"@,
        }
    }

    /// What is said of it.
    pub fn text(&self) -> (r: String)
        ensures
            r@ == self.says(),
    {
        match *self {
            LoginError::EmptyGenerator => "auth: empty generator in challenge response".to_string(),
            LoginError::BadPrime { len } => text::join3(
                "auth: expected 32-byte large safe prime, got ",
                text::to_decimal(len as u64).as_str(),
                " bytes",
            ),
            LoginError::BadName => "auth: username not normalizable".to_string(),
            LoginError::BadPublicKey => "auth: bad server pubkey".to_string(),
            LoginError::BadServerProof => "auth: server proof mismatch".to_string(),
            LoginError::NoRealm => "auth: empty realm list".to_string(),
        }
    }
}

/// A challenge is refused for the first thing that is wrong with it, and otherwise taken as
/// it is.
pub proof fn challenges_are_checked_in_order(c: &ServerChallenge, username: &str, r: Result<Challenge, LoginError>)
    requires
        call_ensures(check_challenge, (c, username), r),
    ensures
        c.generator@.len() == 0 ==> r == Err::<Challenge, LoginError>(LoginError::EmptyGenerator),
        c.generator@.len() > 0 && c.large_safe_prime@.len() != 32 ==> r is Err && r->Err_0 is BadPrime,
        c.generator@.len() > 0 && c.large_safe_prime@.len() == 32 && !auth::can_log_in(username@) ==> r == Err::<
            Challenge,
            LoginError,
        >(LoginError::BadName),
        c.generator@.len() > 0 && c.large_safe_prime@.len() == 32 && auth::can_log_in(username@) && auth::key_from(
            c.server_public_key@,
        ) is None ==> r == Err::<Challenge, LoginError>(LoginError::BadPublicKey),
        c.generator@.len() > 0 && c.large_safe_prime@.len() == 32 && auth::can_log_in(username@) && auth::key_from(
            c.server_public_key@,
        ) is Some ==> r is Ok && r->Ok_0.generator == c.generator@[0] && r->Ok_0.large_safe_prime@
            == c.large_safe_prime@,
{
}

/// What is wrong with a login is said in words, the first realm is taken, and a server
/// without the right proof is not trusted.
pub proof fn a_login_ends_in_a_realm_or_in_words(
    e: &LoginError,
    r: String,
    key: [u8; 40],
    addresses: &Vec<String>,
    o: Result<AuthOutcome, LoginError>,
    c: SrpClientChallenge,
    proof_bytes: [u8; 20],
    k: Result<[u8; 40], LoginError>,
)
    requires
        call_ensures(LoginError::text, (e,), r),
        call_ensures(first_realm, (key, addresses), o),
        call_ensures(accept_server, (c, proof_bytes), k),
    ensures
        *e is EmptyGenerator ==> r@ == "auth: empty generator in challenge response"@,
        *e is BadPrime ==> r@ == "auth: expected 32-byte large safe prime, got "@ + text::decimal(e->len as nat)
            + " bytes"@,
        *e is BadName ==> r@ == "auth: username not normalizable"@,
        *e is BadPublicKey ==> r@ == "auth: bad server pubkey"@,
        *e is BadServerProof ==> r@ == "auth: server proof mismatch"@,
        *e is NoRealm ==> r@ == "auth: empty realm list"@,
        addresses@.len() > 0 ==> o is Ok && o->Ok_0.realm_address@ == addresses@[0]@ && o->Ok_0.session_key == key,
        addresses@.len() == 0 ==> o is Err && o->Err_0 is NoRealm,
        proof_bytes@ == server_proof(c) ==> k is Ok && k->Ok_0@ == client_key(c),
        proof_bytes@ != server_proof(c) ==> k is Err && k->Err_0 is BadServerProof,
{
}

} // verus!
