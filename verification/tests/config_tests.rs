use memoq::analytics::int_to_text;
use memoq::config::{limiter_quota, parse_origins, parse_u16, parse_u32, parse_usize, Config, EnvVars, IntError};

fn s(x: &str) -> String {
    x.to_string()
}

fn none() -> EnvVars {
    EnvVars { host: None, port: None, database_url: None, jwt_secret: None, allowed_origins: None, auth_rate_limit_per_min: None }
}

#[test]
fn unsigned_parsing_follows_str_parse() {
    assert_eq!(parse_u16("8080").ok(), Some(8080));
    assert_eq!(parse_u16("+7").ok(), Some(7));
    assert_eq!(parse_u16("0065535").ok(), Some(65535));
    assert!(matches!(parse_u16("65536"), Err(IntError::Overflow)));
    assert!(matches!(parse_u16(""), Err(IntError::Empty)));
    assert!(matches!(parse_u16("+"), Err(IntError::InvalidDigit)));
    assert!(matches!(parse_u16("-1"), Err(IntError::InvalidDigit)));
    assert!(matches!(parse_u16(" 80"), Err(IntError::InvalidDigit)));
    // the first bad character decides: a digit overflowing before a letter
    assert!(matches!(parse_u16("999999x"), Err(IntError::Overflow)));
    assert!(matches!(parse_u16("9x99999"), Err(IntError::InvalidDigit)));
    assert_eq!(parse_u32("4294967295").ok(), Some(u32::MAX));
    assert!(matches!(parse_u32("4294967296"), Err(IntError::Overflow)));
    assert_eq!(parse_usize("50").ok(), Some(50));
    for text in ["", "+", "12a", "65536", "abc", "+0", "007"] {
        let mine = parse_u16(text).ok();
        let std_result: Option<u16> = text.parse().ok();
        assert_eq!(mine, std_result, "{:?}", text);
    }
}

#[test]
fn error_texts_match_the_standard_library() {
    assert_eq!(IntError::Empty.message(), "".parse::<u16>().unwrap_err().to_string());
    assert_eq!(IntError::InvalidDigit.message(), "x".parse::<u16>().unwrap_err().to_string());
    assert_eq!(IntError::Overflow.message(), "70000".parse::<u16>().unwrap_err().to_string());
}

#[test]
fn decimal_text_reads_back() {
    for n in [0i64, 7, 10, 65535, 1234567890, i64::MAX, -1, -905, i64::MIN] {
        assert_eq!(int_to_text(n), n.to_string());
    }
    assert_eq!(parse_u32(&int_to_text(4000000000)).ok(), Some(4000000000));
}

#[test]
fn origins_are_trimmed_and_blank_ones_dropped() {
    assert_eq!(parse_origins(" http://a.com , ,http://b.com,"), vec![s("http://a.com"), s("http://b.com")]);
    assert!(parse_origins("").is_empty());
}

#[test]
fn defaults_of_the_settings() {
    let c = Config::from_vars(none()).ok().unwrap();
    assert_eq!(c.host, "0.0.0.0");
    assert_eq!(c.port, 8080);
    assert_eq!(c.database_url, "sqlite://memoq.db");
    assert_eq!(c.jwt_secret, "change-me-in-production-secret-key");
    assert_eq!((c.jwt_access_expiry_secs, c.jwt_refresh_expiry_secs, c.ws_lock_timeout_secs), (1800, 604800, 30));
    assert!(c.allowed_origins.is_empty());
    assert_eq!(c.auth_rate_limit_per_min, 10);
}

#[test]
fn given_settings_and_a_bad_port() {
    let vars = EnvVars {
        host: Some(s("127.0.0.1")),
        port: Some(s("9000")),
        allowed_origins: Some(s("http://x")),
        auth_rate_limit_per_min: Some(s("not a number")),
        ..none()
    };
    let c = Config::from_vars(vars).ok().unwrap();
    assert_eq!((c.host.as_str(), c.port, c.auth_rate_limit_per_min), ("127.0.0.1", 9000, 10));
    assert_eq!(c.allowed_origins, vec![s("http://x")]);
    let bad = EnvVars { port: Some(s("http")), ..none() };
    assert!(matches!(Config::from_vars(bad), Err(IntError::InvalidDigit)));
    let rate = EnvVars { auth_rate_limit_per_min: Some(s("3")), ..none() };
    assert_eq!(Config::from_vars(rate).ok().unwrap().auth_rate_limit_per_min, 3);
    assert_eq!(limiter_quota(0), 1);
    assert_eq!(limiter_quota(5), 5);
}
