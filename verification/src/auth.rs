//! Accounts and tokens: registration rules, password checks, the claims of
//! a token and what each endpoint accepts, and the fingerprint under which
//! a refresh token is stored.

use vstd::prelude::*;
use argon2::password_hash::{PasswordHash, PasswordHasher, PasswordVerifier, SaltString};
use crate::error::{bad_request, error_view, unauthorized, AppError};
use crate::text::{
    blank, byte_len, chars_of, concat, is_blank, starts_with, string_of,
};

verus! {

/// Body of a login.
pub struct LoginRequest {
    pub username: String,
    pub password: String,
}

/// The tokens handed out by a login or a refresh.
pub struct TokenResponse {
    pub access_token: String,
    pub refresh_token: String,
    pub token_type: String,
    pub expires_in: i64,
}

/// Body of a refresh.
pub struct RefreshRequest {
    pub refresh_token: String,
}

/// Body of a registration.
pub struct RegisterRequest {
    pub username: String,
    pub email: String,
    pub password: String,
}

/// What a token is for.
#[derive(PartialEq, Eq, Structural)]
pub enum TokenKind {
    Access,
    Refresh,
}

/// The content of a token.
pub struct Claims {
    /// Unique token id.
    pub jti: String,
    /// User id.
    pub sub: String,
    pub username: String,
    pub role: String,
    /// Expiry, in seconds since the epoch.
    pub exp: i64,
    /// Issue time, in seconds since the epoch.
    pub iat: i64,
    pub kind: TokenKind,
}

/// The claims of an authenticated request.
pub struct AuthUser(pub Claims);

/// The address used for rate limiting: the peer's, or the loopback
/// address when the connection does not say.
pub fn caller_ip(peer: Option<String>) -> (r: String)
    ensures
        r@ == match peer {
            Some(p) => p@,
            None => "127.0.0.1"@,
        },
{
    match peer {
        Some(p) => p,
        None => String::from_str("127.0.0.1"),
    }
}

/// A registration needs a non-blank user name and a password of at least
/// eight bytes (in UTF-8).
pub fn validate_registration(req: &RegisterRequest) -> (r: Result<(), AppError>)
    ensures
        r is Ok <==> !is_blank(req.username@) && vstd::utf8::encode_utf8(req.password@).len() >= 8,
        r matches Err(e) ==> error_view(e) == bad_request(
            "Username required and password must be at least 8 characters"@,
        ),
{
    let pw = chars_of(req.password.as_str());
    if blank(req.username.as_str()) || byte_len(&pw) < 8 {
        Err(AppError::bad_request("Username required and password must be at least 8 characters"))
    } else {
        Ok(())
    }
}

/// The claims of a token for `user_id`, issued at `now` and valid for
/// `expiry_secs` seconds.
pub fn new_claims(
    jti: String,
    user_id: &str,
    username: &str,
    role: &str,
    now: i64,
    expiry_secs: i64,
    kind: TokenKind,
) -> (r: Claims)
    requires
        i64::MIN <= now + expiry_secs <= i64::MAX,
    ensures
        r.jti == jti,
        r.sub@ == user_id@,
        r.username@ == username@,
        r.role@ == role@,
        r.iat == now,
        r.exp == now + expiry_secs,
        r.kind == kind,
{
    Claims {
        jti,
        sub: String::from_str(user_id),
        username: String::from_str(username),
        role: String::from_str(role),
        iat: now,
        exp: now + expiry_secs,
        kind,
    }
}

/// The answer to a request with a token of the wrong kind.
pub open spec fn kind_refusal(expected: TokenKind) -> (int, Seq<char>) {
    match expected {
        TokenKind::Access => unauthorized("Expected access token"@),
        TokenKind::Refresh => unauthorized("Expected refresh token"@),
    }
}

/// Only an access token opens the API, only a refresh token renews.
pub fn check_token_kind(claims: &Claims, expected: TokenKind) -> (r: Result<(), AppError>)
    ensures
        r is Ok <==> claims.kind == expected,
        r matches Err(e) ==> error_view(e) == kind_refusal(expected),
{
    if claims.kind == expected {
        Ok(())
    } else {
        match expected {
            TokenKind::Access => Err(AppError::unauthorized("Expected access token")),
            TokenKind::Refresh => Err(AppError::unauthorized("Expected refresh token")),
        }
    }
}

/// The token of an `Authorization` header value: what follows `Bearer `.
pub open spec fn bearer_of(header: Option<Seq<char>>) -> Option<Seq<char>> {
    match header {
        Some(h) => if h.len() >= 7 && h.take(7) == "Bearer "@ {
            Some(h.skip(7))
        } else {
            None
        },
        None => None,
    }
}

/// A header written as `Bearer ` and a token gives that token back.
pub proof fn lemma_bearer_round_trip(t: Seq<char>)
    ensures
        bearer_of(Some("Bearer "@ + t)) == Some(t),
{
    reveal_strlit("Bearer ");
    assert(("Bearer "@ + t).take(7) =~= "Bearer "@);
    assert(("Bearer "@ + t).skip(7) =~= t);
}

/// The bearer token of an `Authorization` header, if it holds one.
pub fn extract_bearer_token(header: Option<&str>) -> (r: Option<String>)
    ensures
        match r {
            Some(t) => bearer_of(match header {
                Some(h) => Some(h@),
                None => None,
            }) == Some(t@),
            None => bearer_of(match header {
                Some(h) => Some(h@),
                None => None,
            }) is None,
        },
{
    match header {
        None => None,
        Some(h) => {
            let hc = chars_of(h);
            let prefix = chars_of("Bearer ");
            proof {
                reveal_strlit("Bearer ");
            }
            if starts_with(&hc, &prefix) {
                let mut rest: Vec<char> = Vec::new();
                let mut i: usize = 7;
                while i < hc.len()
                    invariant
                        7 <= i <= hc@.len(),
                        rest@ == hc@.subrange(7, i as int),
                    decreases hc@.len() - i,
                {
                    rest.push(hc[i]);
                    assert(rest@ =~= hc@.subrange(7, i + 1));
                    i = i + 1;
                }
                assert(hc@.take(7) =~= prefix@);
                Some(string_of(&rest))
            } else {
                proof {
                    if hc@.len() >= 7 && hc@.take(7) == "Bearer "@ {
                        assert(hc@.subrange(0, prefix@.len() as int) =~= hc@.take(7));
                    }
                }
                None
            }
        },
    }
}

/// The first step of an authenticated request: its bearer token, or the
/// answer "Missing Authorization header".
pub fn require_bearer(header: Option<&str>) -> (r: Result<String, AppError>)
    ensures
        match r {
            Ok(t) => bearer_of(match header {
                Some(h) => Some(h@),
                None => None,
            }) == Some(t@),
            Err(e) => bearer_of(match header {
                Some(h) => Some(h@),
                None => None,
            }) is None && error_view(e) == unauthorized("Missing Authorization header"@),
        },
{
    match extract_bearer_token(header) {
        Some(t) => Ok(t),
        None => Err(AppError::unauthorized("Missing Authorization header")),
    }
}

/// The second step: the decoded token (or the decoder's complaint) must be
/// an access token.
pub fn accept_access(decoded: Result<Claims, String>) -> (r: Result<Claims, AppError>)
    ensures
        match decoded {
            Err(m) => r matches Err(e) && error_view(e) == unauthorized("Invalid token: "@ + m@),
            Ok(c) => if c.kind == TokenKind::Access {
                r == Ok::<Claims, AppError>(c)
            } else {
                r matches Err(e) && error_view(e) == unauthorized("Expected access token"@)
            },
        },
{
    match decoded {
        Err(m) => Err(AppError::Unauthorized(concat("Invalid token: ", m.as_str()))),
        Ok(c) => {
            if c.kind == TokenKind::Access {
                Ok(c)
            } else {
                Err(AppError::unauthorized("Expected access token"))
            }
        },
    }
}

/// The claims a handler sees, or "Not authenticated" when the request
/// carries none.
pub fn auth_user(claims: Option<Claims>) -> (r: Result<AuthUser, AppError>)
    ensures
        match claims {
            Some(c) => r matches Ok(u) && u.0 == c,
            None => r matches Err(e) && error_view(e) == unauthorized("Not authenticated"@),
        },
{
    match claims {
        Some(c) => Ok(AuthUser(c)),
        None => Err(AppError::unauthorized("Not authenticated")),
    }
}

/// A live connection opens with a valid access token only.
pub fn ws_claims(decoded: Result<Claims, String>) -> (r: Option<Claims>)
    ensures
        match decoded {
            Ok(c) => if c.kind == TokenKind::Access {
                r == Some(c)
            } else {
                r is None
            },
            Err(_) => r is None,
        },
{
    match decoded {
        Ok(c) => if c.kind == TokenKind::Access {
            Some(c)
        } else {
            None
        },
        Err(_) => None,
    }
}

/// The answer of a login or a refresh.
pub fn token_response(access_token: String, refresh_token: String, expires_in: i64) -> (r: TokenResponse)
    ensures
        r.access_token == access_token,
        r.refresh_token == refresh_token,
        r.token_type@ == "Bearer"@,
        r.expires_in == expires_in,
{
    TokenResponse { access_token, refresh_token, token_type: String::from_str("Bearer"), expires_in }
}

// ───────────────────────────── passwords ─────────────────────────────

/// Whether `PasswordHash::new` reads `hash` as a PHC string.
pub uninterp spec fn argon2_hash_parses(hash: Seq<char>) -> bool;

/// The text of the error `PasswordHash::new` gives for `hash`.
pub uninterp spec fn argon2_hash_error(hash: Seq<char>) -> Seq<char>;

/// Whether Argon2 (default parameters) verifies `password` against the
/// parsed `hash`.
pub uninterp spec fn argon2_verifies(password: Seq<char>, hash: Seq<char>) -> bool;

/// `PasswordHash::new` then `Argon2::verify_password`: `Err` with the
/// parse error's text when the stored hash is not a PHC string, else
/// whether the password matches it.
#[verifier::external_body]
fn argon2_check(password: &str, hash: &str) -> (r: Result<bool, String>)
    ensures
        r is Ok <==> argon2_hash_parses(hash@),
        r matches Ok(b) ==> b == argon2_verifies(password@, hash@),
        r matches Err(m) ==> m@ == argon2_hash_error(hash@),
{
    match PasswordHash::new(hash) {
        Ok(parsed) => match argon2::Argon2::default().verify_password(password.as_bytes(), &parsed) {
            Ok(()) => Ok(true),
            Err(_) => Ok(false),
        },
        Err(e) => Err(e.to_string()),
    }
}

/// `Argon2::hash_password` with a fresh random salt (`SaltString::generate`
/// over `OsRng`), as a PHC string. The salt is random, so the text is not
/// stated; what is stated is what the password-hash source shows: the
/// string parses back and verifies the same password.
#[verifier::external_body]
fn argon2_hash(password: &str) -> (r: Result<String, String>)
    ensures
        r matches Ok(h) ==> argon2_hash_parses(h@) && argon2_verifies(password@, h@),
{
    let salt = SaltString::generate(&mut argon2::password_hash::rand_core::OsRng);
    match argon2::Argon2::default().hash_password(password.as_bytes(), &salt) {
        Ok(h) => Ok(h.to_string()),
        Err(e) => Err(e.to_string()),
    }
}

/// The refusal of a password against a stored hash.
pub open spec fn password_refusal(password: Seq<char>, hash: Seq<char>) -> Option<(int, Seq<char>)> {
    if !argon2_hash_parses(hash) {
        Some((5, "Password hash parse error: "@ + argon2_hash_error(hash)))
    } else if !argon2_verifies(password, hash) {
        Some(unauthorized("Invalid credentials"@))
    } else {
        None
    }
}

/// Checks a password against the stored hash: a hash that does not parse
/// is a server error, a mismatch is "Invalid credentials".
pub fn verify_password(password: &str, hash: &str) -> (r: Result<(), AppError>)
    ensures
        match r {
            Ok(_) => password_refusal(password@, hash@) is None,
            Err(e) => password_refusal(password@, hash@) == Some(error_view(e)),
        },
{
    match argon2_check(password, hash) {
        Err(m) => Err(AppError::Internal(concat("Password hash parse error: ", m.as_str()))),
        Ok(true) => Ok(()),
        Ok(false) => Err(AppError::unauthorized("Invalid credentials")),
    }
}

/// Hashes a new password; a failure of the hasher is a server error.
pub fn hash_password(password: &str) -> (r: Result<String, AppError>)
    ensures
        r matches Ok(h) ==> password_refusal(password@, h@) is None,
        r matches Err(e) ==> exists|m: Seq<char>| error_view(e) == (5int, "Password hash error: "@ + m),
{
    match argon2_hash(password) {
        Ok(h) => Ok(h),
        Err(m) => Err(AppError::Internal(concat("Password hash error: ", m.as_str()))),
    }
}

/// The answer to a registration the database refused: a broken UNIQUE
/// constraint means the name or e-mail is taken, anything else is a server
/// error with the database's text.
pub fn registration_conflict(db_error: &str) -> (r: AppError)
    ensures
        crate::text::contains_seq(db_error@, "UNIQUE"@) ==> error_view(r) == bad_request(
            "Username or email already exists"@,
        ),
        !crate::text::contains_seq(db_error@, "UNIQUE"@) ==> error_view(r) == (5int, db_error@),
{
    let text = chars_of(db_error);
    let unique = chars_of("UNIQUE");
    if crate::text::contains_chars(&text, &unique) {
        AppError::bad_request("Username or email already exists")
    } else {
        AppError::Internal(String::from_str(db_error))
    }
}

/// Logins and registrations beyond the rate of an address are refused.
pub fn check_rate(allowed: bool) -> (r: Result<(), AppError>)
    ensures
        r is Ok <==> allowed,
        r matches Err(e) ==> error_view(e) == crate::error::too_many_requests(),
{
    if allowed {
        Ok(())
    } else {
        Err(AppError::TooManyRequests)
    }
}

/// A login with an unknown user name is refused like a wrong password.
pub fn check_login_user(found: bool) -> (r: Result<(), AppError>)
    ensures
        r is Ok <==> found,
        r matches Err(e) ==> error_view(e) == unauthorized("Invalid credentials"@),
{
    if found {
        Ok(())
    } else {
        Err(AppError::unauthorized("Invalid credentials"))
    }
}

/// A refresh needs a stored, unrevoked, unexpired token row.
pub fn check_refresh_row(row: Option<String>) -> (r: Result<String, AppError>)
    ensures
        match row {
            Some(id) => r == Ok::<String, AppError>(id),
            None => r matches Err(e) && error_view(e) == unauthorized(
                "Refresh token invalid or expired"@,
            ),
        },
{
    match row {
        Some(id) => Ok(id),
        None => Err(AppError::unauthorized("Refresh token invalid or expired")),
    }
}

/// A refresh for a user that no longer exists is refused.
pub fn check_refresh_user(found: bool) -> (r: Result<(), AppError>)
    ensures
        r is Ok <==> found,
        r matches Err(e) ==> error_view(e) == unauthorized("User not found"@),
{
    if found {
        Ok(())
    } else {
        Err(AppError::unauthorized("User not found"))
    }
}

// ───────────────────────────── token fingerprints ─────────────────────────────

/// FNV-1a (64 bits) of a byte sequence.
pub open spec fn fnv1a(bytes: Seq<u8>) -> u64
    decreases bytes.len(),
{
    if bytes.len() == 0 {
        0xcbf2_9ce4_8422_2325u64
    } else {
        (fnv1a(bytes.drop_last()) ^ (bytes.last() as u64)).wrapping_mul(0x0000_0100_0000_01b3u64)
    }
}

/// The lower-case hexadecimal digit of `d` (below 16).
pub open spec fn hex_char(d: nat) -> char {
    if d < 10 {
        (48 + d) as char
    } else {
        (87 + d) as char
    }
}

/// The last `count` hexadecimal digits of `n`, most significant first.
pub open spec fn hex_digits(n: nat, count: nat) -> Seq<char>
    decreases count,
{
    if count == 0 {
        seq![]
    } else {
        hex_digits(n / 16, (count - 1) as nat).push(hex_char(n % 16))
    }
}

fn hex_digit(d: u64) -> (c: char)
    requires
        d < 16,
    ensures
        c == hex_char(d as nat),
{
    if d == 0 { '0' } else if d == 1 { '1' } else if d == 2 { '2' } else if d == 3 { '3' }
    else if d == 4 { '4' } else if d == 5 { '5' } else if d == 6 { '6' } else if d == 7 { '7' }
    else if d == 8 { '8' } else if d == 9 { '9' } else if d == 10 { 'a' } else if d == 11 { 'b' }
    else if d == 12 { 'c' } else if d == 13 { 'd' } else if d == 14 { 'e' } else { 'f' }
}

/// The storage key of a refresh token: FNV-1a of its UTF-8 bytes, as 16
/// lower-case hexadecimal digits.
pub fn hash_token(token: &str) -> (r: String)
    ensures
        r@ == hex_digits(fnv1a(vstd::utf8::encode_utf8(token@)) as nat, 16),
{
    let bytes = token.as_bytes();
    let mut hash: u64 = 0xcbf2_9ce4_8422_2325u64;
    let mut i: usize = 0;
    while i < bytes.len()
        invariant
            i <= bytes@.len(),
            bytes@ == vstd::utf8::encode_utf8(token@),
            hash == fnv1a(bytes@.take(i as int)),
        decreases bytes@.len() - i,
    {
        assert(bytes@.take(i + 1).drop_last() =~= bytes@.take(i as int));
        hash = hash ^ (bytes[i] as u64);
        hash = hash.wrapping_mul(0x0000_0100_0000_01b3u64);
        i = i + 1;
    }
    assert(bytes@.take(bytes@.len() as int) =~= bytes@);
    // digits from the least significant, each put in front
    let mut digits: Vec<char> = Vec::new();
    let mut n: u64 = hash;
    let mut k: usize = 0;
    while k < 16
        invariant
            k <= 16,
            hex_digits(hash as nat, 16) == hex_digits(n as nat, (16 - k) as nat) + digits@,
        decreases 16 - k,
    {
        let c = hex_digit(n % 16);
        let ghost rest = (16 - k - 1) as nat;
        assert(hex_digits(n as nat, (16 - k) as nat) == hex_digits((n / 16) as nat, rest).push(c));
        let ghost before = digits@;
        digits.insert(0, c);
        assert(hex_digits((n / 16) as nat, rest).push(c) + before =~= hex_digits(
            (n / 16) as nat,
            rest,
        ) + digits@);
        n = n / 16;
        k = k + 1;
    }
    assert(hex_digits(n as nat, 0) =~= Seq::<char>::empty());
    assert(hex_digits(hash as nat, 16) =~= digits@);
    string_of(&digits)
}

} // verus!
