//! Admin authentication: the decisions of account setup, login and the
//! bearer-token gate in front of the API.
//!
//! Passwords are hashed with Argon2 into PHC strings; the database that
//! stores the hash and the issued tokens is consulted by the caller, which
//! hands the answers in.

use vstd::prelude::*;

use crate::security::{new_uuid_v4, uuid_v4_text};
use crate::text::{owned, str_starts_with};
use vstd::utf8::encode_utf8;

verus! {

/// A refused API request: the HTTP status and the message of the error.
#[derive(Debug)]
pub struct ApiError {
    pub status: u16,
    pub message: String,
}

/// The status and message of a refusal.
pub open spec fn refusal(e: ApiError) -> (u16, Seq<char>) {
    (e.status, e.message@)
}

fn api_error(status: u16, message: &str) -> (e: ApiError)
    ensures
        e.status == status,
        e.message@ == message@,
{
    ApiError { status, message: owned(message) }
}

/// Lifetime of a login token, in seconds (seven days).
pub const TOKEN_TTL_SECS: i64 = 604800;

/// Tokens created at or before this second are expired at `now`.
pub open spec fn expiry_cutoff(now: int) -> int {
    now - TOKEN_TTL_SECS
}

/// The creation time before which tokens are expired at `now` (seconds
/// since the epoch).
pub fn token_expiry_cutoff(now: i64) -> (r: i64)
    requires
        now >= i64::MIN + TOKEN_TTL_SECS,
    ensures
        r == expiry_cutoff(now as int),
{
    now - TOKEN_TTL_SECS
}

// ---------------------------------------------------------------------------
// Argon2
// ---------------------------------------------------------------------------

/// Whether text is a PHC string that `argon2` can read as a password hash.
pub uninterp spec fn phc_well_formed(phc: Seq<char>) -> bool;

/// Whether Argon2, with the parameters recorded in the PHC string, accepts
/// the password.
pub uninterp spec fn argon2_accepts(password: Seq<char>, phc: Seq<char>) -> bool;

/// Checks a password against a stored hash.
/// Calls `password_hash::PasswordHash::new` to read the PHC string (`None`
/// when it is not one) and then `PasswordVerifier::verify_password` of
/// `argon2::Argon2::default()`; the contract names both outcomes.
#[verifier::external_body]
fn argon2_check(password: &str, phc: &str) -> (r: Option<bool>)
    ensures
        match r {
            None => !phc_well_formed(phc@),
            Some(ok) => phc_well_formed(phc@) && ok == argon2_accepts(password@, phc@),
        },
{
    match argon2::password_hash::PasswordHash::new(phc) {
        Ok(parsed) => Some(
            argon2::password_hash::PasswordVerifier::verify_password(
                &argon2::Argon2::default(),
                password.as_bytes(),
                &parsed,
            ).is_ok(),
        ),
        Err(_) => None,
    }
}

/// Hashes a new password with a fresh random salt.
/// Calls `PasswordHasher::hash_password` of `argon2::Argon2::default()` with
/// a salt from `SaltString::generate(&mut OsRng)` and writes the PHC string.
/// The salt is random, so the hash itself is not stated; what the crate's
/// documentation shows is that the hash reads back as a PHC string that
/// verifies the same password. Hashing fails only for a password longer
/// than 2^32 - 1 bytes or a salt outside 8 to 64 bytes (`verify_inputs`);
/// the generated salt has 16 bytes and the default parameters are valid, so
/// any shorter password is hashed.
#[verifier::external_body]
fn argon2_hash(password: &str) -> (r: Option<String>)
    ensures
        r matches Some(h) ==> phc_well_formed(h@) && argon2_accepts(password@, h@),
        encode_utf8(password@).len() <= 0xFFFF_FFFF ==> r is Some,
{
    let salt = argon2::password_hash::SaltString::generate(
        &mut argon2::password_hash::rand_core::OsRng,
    );
    let hasher = argon2::Argon2::default();
    match argon2::password_hash::PasswordHasher::hash_password(&hasher, password.as_bytes(), &salt) {
        Ok(h) => Some(h.to_string()),
        Err(_) => None,
    }
}

// ---------------------------------------------------------------------------
// Setup
// ---------------------------------------------------------------------------

/// Why a new admin password is refused, if it is: it must take 8 to 128
/// bytes in UTF-8.
pub open spec fn password_refusal(password: Seq<char>) -> Option<(u16, Seq<char>)> {
    if encode_utf8(password).len() < 8 {
        Some((400, "Password must be at least 8 characters"@))
    } else if encode_utf8(password).len() > 128 {
        Some((400, "Password must not exceed 128 characters"@))
    } else {
        None
    }
}

/// Checks the length of a new admin password.
pub fn validate_new_password(password: &str) -> (r: Result<(), ApiError>)
    ensures
        match r {
            Ok(()) => password_refusal(password@) is None,
            Err(e) => password_refusal(password@) == Some(refusal(e)),
        },
{
    let n = password.as_bytes().len();
    if n < 8 {
        return Err(api_error(400, "Password must be at least 8 characters"));
    }
    if n > 128 {
        return Err(api_error(400, "Password must not exceed 128 characters"));
    }
    Ok(())
}

/// What setting up the admin account grants: the hash to store and the
/// first token to hand out.
#[derive(Debug)]
pub struct SetupGrant {
    pub password_hash: String,
    pub token: String,
}

/// Sets up the admin account: the password must have an acceptable length
/// (400) and no admin may exist yet (409); otherwise setup succeeds, the
/// stored hash verifies the password and a fresh token is issued.
pub fn setup_admin(password: &str, admin_exists: bool) -> (r: Result<SetupGrant, ApiError>)
    ensures
        password_refusal(password@) matches Some(x) ==> r matches Err(e) && refusal(e) == x,
        password_refusal(password@) is None && admin_exists ==> (r matches Err(e) && refusal(e) == (
            409u16,
            "Admin account already exists"@,
        )),
        password_refusal(password@) is None && !admin_exists ==> r is Ok,
        r matches Ok(g) ==> {
            &&& password_refusal(password@) is None
            &&& !admin_exists
            &&& phc_well_formed(g.password_hash@)
            &&& argon2_accepts(password@, g.password_hash@)
            &&& uuid_v4_text(g.token@)
        },
{
    match validate_new_password(password) {
        Err(e) => {
            return Err(e);
        },
        Ok(()) => {},
    }
    if admin_exists {
        return Err(api_error(409, "Admin account already exists"));
    }
    match argon2_hash(password) {
        None => Err(api_error(500, "Password hashing failed")),
        Some(h) => Ok(SetupGrant { password_hash: h, token: new_uuid_v4() }),
    }
}

// ---------------------------------------------------------------------------
// Login
// ---------------------------------------------------------------------------

/// How a login attempt ends: `None` when it succeeds, else the refusal.
pub open spec fn login_refusal(password: Seq<char>, stored: Option<Seq<char>>) -> Option<(u16, Seq<char>)> {
    match stored {
        None => Some((401, "No admin account configured"@)),
        Some(h) => if !phc_well_formed(h) {
            Some((500, "Corrupted password hash"@))
        } else if !argon2_accepts(password, h) {
            Some((401, "Invalid password"@))
        } else {
            None
        },
    }
}

/// The stored hash as an optional text.
pub open spec fn stored_view(stored: Option<String>) -> Option<Seq<char>> {
    match stored {
        Some(h) => Some(h@),
        None => None,
    }
}

/// Logs in with the admin password against the stored hash (`None` when no
/// admin account exists); on success a fresh token is issued.
pub fn login(password: &str, stored_hash: Option<String>) -> (r: Result<String, ApiError>)
    ensures
        match r {
            Ok(token) => login_refusal(password@, stored_view(stored_hash)) is None && uuid_v4_text(token@),
            Err(e) => login_refusal(password@, stored_view(stored_hash)) == Some(refusal(e)),
        },
{
    let h = match stored_hash {
        None => {
            return Err(api_error(401, "No admin account configured"));
        },
        Some(h) => h,
    };
    match argon2_check(password, h.as_str()) {
        None => Err(api_error(500, "Corrupted password hash")),
        Some(false) => Err(api_error(401, "Invalid password")),
        Some(true) => Ok(new_uuid_v4()),
    }
}

/// A password that the account was set up with logs in: the hash that
/// setup stores is one that login accepts for the same password.
pub proof fn law_setup_password_logs_in(password: Seq<char>, stored: Seq<char>)
    requires
        phc_well_formed(stored),
        argon2_accepts(password, stored),
    ensures
        login_refusal(password, Some(stored)) is None,
{
}

// ---------------------------------------------------------------------------
// The token gate
// ---------------------------------------------------------------------------

/// The decision taken on an API call before it is served.
#[derive(Debug)]
pub enum AuthGate {
    /// Authentication is off: let the request through.
    Open,
    /// Look the bearer token up; the request passes if it is valid.
    Check(String),
    /// Refuse the request.
    Refuse(ApiError),
}

/// The token of an `Authorization` header value, if it is a bearer token.
pub open spec fn bearer_token(value: Seq<char>) -> Option<Seq<char>> {
    let p = "Bearer "@;
    if value.len() >= p.len() && value.subrange(0, p.len() as int) == p {
        Some(value.subrange(p.len() as int, value.len() as int))
    } else {
        None
    }
}

/// Decides what to do with a request: everything passes when
/// authentication is off; otherwise a bearer token is needed in the
/// `Authorization` header (`header` is its value, when the request has one
/// that is text), and a request without one is refused with 401.
pub fn auth_gate(auth_enabled: bool, header: Option<&str>) -> (r: AuthGate)
    ensures
        !auth_enabled ==> r is Open,
        auth_enabled ==> match header {
            Some(v) => match bearer_token(v@) {
                Some(t) => r matches AuthGate::Check(tok) && tok@ == t,
                None => r matches AuthGate::Refuse(e) && refusal(e) == (
                    401u16,
                    "Missing Authorization header"@,
                ),
            },
            None => r matches AuthGate::Refuse(e) && refusal(e) == (
                401u16,
                "Missing Authorization header"@,
            ),
        },
{
    if !auth_enabled {
        return AuthGate::Open;
    }
    match header {
        Some(v) => {
            proof {
                reveal_strlit("Bearer ");
            }
            if str_starts_with(v, "Bearer ") {
                let chars = crate::text::chars_of(v);
                let t = crate::text::string_from_chars(&chars, 7, chars.len());
                AuthGate::Check(t)
            } else {
                AuthGate::Refuse(api_error(401, "Missing Authorization header"))
            }
        },
        None => AuthGate::Refuse(api_error(401, "Missing Authorization header")),
    }
}

/// The answer to a request whose bearer token was looked up: it passes
/// only with a valid token.
pub fn token_verdict(valid: bool) -> (r: Result<(), ApiError>)
    ensures
        valid <==> r is Ok,
        r matches Err(e) ==> refusal(e) == (401u16, "Invalid token"@),
{
    if valid {
        Ok(())
    } else {
        Err(api_error(401, "Invalid token"))
    }
}

} // verus!
