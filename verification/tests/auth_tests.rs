use memoq::auth::{
    accept_access, auth_user, caller_ip, check_login_user, check_rate, check_refresh_row, check_token_kind,
    extract_bearer_token, hash_password, hash_token, new_claims, require_bearer, token_response,
    validate_registration, verify_password, ws_claims, Claims, RegisterRequest, TokenKind,
};
use memoq::error::AppError;

fn s(x: &str) -> String {
    x.to_string()
}

fn claims(kind: TokenKind) -> Claims {
    new_claims(s("j1"), "u1", "alice", "translator", 1000, 1800, kind)
}

fn unauthorized_text(e: AppError) -> String {
    match e {
        AppError::Unauthorized(m) => m,
        _ => panic!("expected unauthorized"),
    }
}

#[test]
fn token_fingerprint_is_fnv1a_hex() {
    assert_eq!(hash_token(""), "cbf29ce484222325");
    assert_eq!(hash_token("a"), "af63dc4c8601ec8c");
    assert_eq!(hash_token("foobar"), "85944171f73967e8");
    assert_eq!(hash_token("é").len(), 16);
    assert_ne!(hash_token("token-1"), hash_token("token-2"));
}

#[test]
fn registration_rules() {
    let ok = RegisterRequest { username: s("alice"), email: s("a@x"), password: s("12345678") };
    assert!(validate_registration(&ok).is_ok());
    let short = RegisterRequest { password: s("1234567"), ..ok };
    match validate_registration(&short) {
        Err(AppError::BadRequest(m)) => assert_eq!(m, "Username required and password must be at least 8 characters"),
        _ => panic!("expected a bad request"),
    }
    // eight bytes in UTF-8 suffice even with fewer characters
    let wide = RegisterRequest { username: s("bob"), email: s("b@x"), password: s("가나다") };
    assert!(validate_registration(&wide).is_ok());
    let blank = RegisterRequest { username: s("  "), email: s("c@x"), password: s("longenough") };
    assert!(validate_registration(&blank).is_err());
}

#[test]
fn claims_and_token_kinds() {
    let c = claims(TokenKind::Access);
    assert_eq!((c.sub.as_str(), c.iat, c.exp), ("u1", 1000, 2800));
    assert!(check_token_kind(&c, TokenKind::Access).is_ok());
    assert_eq!(unauthorized_text(check_token_kind(&c, TokenKind::Refresh).err().unwrap()), "Expected refresh token");
    let r = claims(TokenKind::Refresh);
    assert_eq!(unauthorized_text(check_token_kind(&r, TokenKind::Access).err().unwrap()), "Expected access token");
}

#[test]
fn bearer_header_parsing() {
    assert_eq!(extract_bearer_token(Some("Bearer abc.def")), Some(s("abc.def")));
    assert_eq!(extract_bearer_token(Some("Bearer ")), Some(s("")));
    assert_eq!(extract_bearer_token(Some("bearer abc")), None);
    assert_eq!(extract_bearer_token(Some("Basic abc")), None);
    assert_eq!(extract_bearer_token(None), None);
    assert_eq!(unauthorized_text(require_bearer(None).err().unwrap()), "Missing Authorization header");
}

#[test]
fn access_checks() {
    assert!(accept_access(Ok(claims(TokenKind::Access))).is_ok());
    assert_eq!(unauthorized_text(accept_access(Ok(claims(TokenKind::Refresh))).err().unwrap()), "Expected access token");
    assert_eq!(unauthorized_text(accept_access(Err(s("ExpiredSignature"))).err().unwrap()), "Invalid token: ExpiredSignature");
    assert!(ws_claims(Ok(claims(TokenKind::Access))).is_some());
    assert!(ws_claims(Ok(claims(TokenKind::Refresh))).is_none());
    assert!(ws_claims(Err(s("bad"))).is_none());
    assert_eq!(unauthorized_text(auth_user(None).err().unwrap()), "Not authenticated");
    assert_eq!(auth_user(Some(claims(TokenKind::Access))).ok().unwrap().0.username, "alice");
}

#[test]
fn small_decisions() {
    assert_eq!(caller_ip(None), "127.0.0.1");
    assert_eq!(caller_ip(Some(s("10.0.0.2"))), "10.0.0.2");
    assert!(matches!(check_rate(false), Err(AppError::TooManyRequests)));
    assert!(check_rate(true).is_ok());
    assert_eq!(unauthorized_text(check_login_user(false).err().unwrap()), "Invalid credentials");
    assert_eq!(unauthorized_text(check_refresh_row(None).err().unwrap()), "Refresh token invalid or expired");
    assert_eq!(check_refresh_row(Some(s("r1"))).ok().unwrap(), "r1");
    let t = token_response(s("a"), s("r"), 1800);
    assert_eq!((t.token_type.as_str(), t.expires_in), ("Bearer", 1800));
}

#[test]
fn hashed_password_verifies_and_others_do_not() {
    let h = hash_password("correct horse").ok().unwrap();
    assert!(h.starts_with("$argon2"));
    assert!(verify_password("correct horse", &h).is_ok());
    assert_eq!(unauthorized_text(verify_password("wrong horse", &h).err().unwrap()), "Invalid credentials");
    match verify_password("x", "not a phc string") {
        Err(AppError::Internal(m)) => assert!(m.starts_with("Password hash parse error: ")),
        _ => panic!("expected a server error"),
    }
}
