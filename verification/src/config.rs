//! The server's settings, read from the values of its environment
//! variables: defaults, numbers in decimal, and the list of allowed
//! origins.

use vstd::prelude::*;
use crate::text::{chars_of, split_char, split_on, string_of, trim, trim_chars, views};

verus! {

/// Why a text is not an unsigned number (the kinds of `ParseIntError`).
pub enum IntError {
    Empty,
    InvalidDigit,
    Overflow,
}

impl IntError {
    /// The text of the error, as the standard library prints it.
    pub fn message(&self) -> (r: &'static str)
        ensures
            r@ == int_error_text(*self),
    {
        match self {
            IntError::Empty => "cannot parse integer from empty string",
            IntError::InvalidDigit => "invalid digit found in string",
            IntError::Overflow => "number too large to fit in target type",
        }
    }
}

pub open spec fn int_error_text(e: IntError) -> Seq<char> {
    match e {
        IntError::Empty => "cannot parse integer from empty string"@,
        IntError::InvalidDigit => "invalid digit found in string"@,
        IntError::Overflow => "number too large to fit in target type"@,
    }
}

pub open spec fn is_digit(c: char) -> bool {
    '0' <= c <= '9'
}

pub open spec fn digit_value(c: char) -> nat {
    (c as u32 - '0' as u32) as nat
}

/// Reading decimal digits from the left, refusing a non-digit or a value
/// above `max` at the first character where either happens.
pub open spec fn parse_digits(s: Seq<char>, max: nat) -> Result<nat, IntError>
    decreases s.len(),
{
    if s.len() == 0 {
        Ok(0)
    } else {
        match parse_digits(s.drop_last(), max) {
            Err(e) => Err(e),
            Ok(v) => if !is_digit(s.last()) {
                Err(IntError::InvalidDigit)
            } else if v * 10 + digit_value(s.last()) > max {
                Err(IntError::Overflow)
            } else {
                Ok(v * 10 + digit_value(s.last()))
            },
        }
    }
}

/// `str::parse` of an unsigned integer type whose largest value is `max`:
/// an optional `+`, then decimal digits.
pub open spec fn parse_unsigned(s: Seq<char>, max: nat) -> Result<nat, IntError> {
    if s.len() == 0 {
        Err(IntError::Empty)
    } else if s.len() == 1 && (s[0] == '+' || s[0] == '-') {
        Err(IntError::InvalidDigit)
    } else if s[0] == '+' {
        parse_digits(s.drop_first(), max)
    } else {
        parse_digits(s, max)
    }
}

proof fn lemma_parse_digits_bound(s: Seq<char>, max: nat)
    ensures
        parse_digits(s, max) matches Ok(v) ==> v <= max,
    decreases s.len(),
{
    if s.len() > 0 {
        lemma_parse_digits_bound(s.drop_last(), max);
    }
}

fn parse_digits_from(s: &Vec<char>, start: usize, max: u64) -> (r: Result<u64, IntError>)
    requires
        start <= s@.len(),
    ensures
        match (r, parse_digits(s@.skip(start as int), max as nat)) {
            (Ok(a), Ok(b)) => a == b,
            (Err(a), Err(b)) => a == b,
            _ => false,
        },
{
    let mut v: u64 = 0;
    let mut i: usize = start;
    let ghost d = s@.skip(start as int);
    assert(d.take(0) =~= Seq::<char>::empty());
    while i < s.len()
        invariant
            start <= i <= s@.len(),
            d == s@.skip(start as int),
            parse_digits(d.take(i - start), max as nat) == Ok::<nat, IntError>(v as nat),
        decreases s@.len() - i,
    {
        let c = s[i];
        let ghost pre = d.take(i - start);
        assert(d.take(i - start + 1).drop_last() =~= pre);
        assert(d.take(i - start + 1).last() == c);
        if !('0' <= c && c <= '9') {
            proof {
                lemma_parse_digits_prefix_err(d, (i - start + 1) as int, max as nat);
            }
            return Err(IntError::InvalidDigit);
        }
        let dv: u64 = (c as u32 - '0' as u32) as u64;
        proof {
            lemma_parse_digits_bound(pre, max as nat);
        }
        if dv > max || v > (max - dv) / 10 {
            assert(v * 10 + dv > max) by (nonlinear_arith)
                requires
                    dv > max || v > (max - dv) / 10,
                    dv <= max ==> v > (max - dv) / 10,
            ;
            proof {
                lemma_parse_digits_prefix_err(d, (i - start + 1) as int, max as nat);
            }
            return Err(IntError::Overflow);
        }
        assert(v * 10 + dv <= max) by (nonlinear_arith)
            requires
                v <= (max - dv) / 10,
                dv <= max,
        ;
        v = v * 10 + dv;
        i = i + 1;
    }
    assert(d.take(i - start) =~= d);
    Ok(v)
}

/// Once a prefix of the digits is refused, so is the whole.
proof fn lemma_parse_digits_prefix_err(d: Seq<char>, n: int, max: nat)
    requires
        0 <= n <= d.len(),
        parse_digits(d.take(n), max) is Err,
    ensures
        parse_digits(d, max) == parse_digits(d.take(n), max),
    decreases d.len() - n,
{
    if n < d.len() {
        assert(d.take(n + 1).drop_last() =~= d.take(n));
        lemma_parse_digits_prefix_err(d, n + 1, max);
    } else {
        assert(d.take(n) =~= d);
    }
}

/// `str::parse` of an unsigned number no larger than `max`.
pub fn parse_unsigned_text(s: &str, max: u64) -> (r: Result<u64, IntError>)
    ensures
        match (r, parse_unsigned(s@, max as nat)) {
            (Ok(a), Ok(b)) => a == b,
            (Err(a), Err(b)) => a == b,
            _ => false,
        },
{
    let cs = chars_of(s);
    if cs.len() == 0 {
        return Err(IntError::Empty);
    }
    if cs.len() == 1 && (cs[0] == '+' || cs[0] == '-') {
        return Err(IntError::InvalidDigit);
    }
    if cs[0] == '+' {
        assert(cs@.skip(1) =~= cs@.drop_first());
        parse_digits_from(&cs, 1, max)
    } else {
        assert(cs@.skip(0) =~= cs@);
        parse_digits_from(&cs, 0, max)
    }
}

/// `str::parse::<u16>`.
pub fn parse_u16(s: &str) -> (r: Result<u16, IntError>)
    ensures
        match (r, parse_unsigned(s@, u16::MAX as nat)) {
            (Ok(a), Ok(b)) => a == b,
            (Err(a), Err(b)) => a == b,
            _ => false,
        },
{
    match parse_unsigned_text(s, 0xffff) {
        Ok(v) => Ok(v as u16),
        Err(e) => Err(e),
    }
}

/// `str::parse::<u32>`.
pub fn parse_u32(s: &str) -> (r: Result<u32, IntError>)
    ensures
        match (r, parse_unsigned(s@, u32::MAX as nat)) {
            (Ok(a), Ok(b)) => a == b,
            (Err(a), Err(b)) => a == b,
            _ => false,
        },
{
    match parse_unsigned_text(s, 0xffff_ffff) {
        Ok(v) => Ok(v as u32),
        Err(e) => Err(e),
    }
}

/// `str::parse::<usize>`.
pub fn parse_usize(s: &str) -> (r: Result<usize, IntError>)
    ensures
        match (r, parse_unsigned(s@, usize::MAX as nat)) {
            (Ok(a), Ok(b)) => a == b,
            (Err(a), Err(b)) => a == b,
            _ => false,
        },
{
    match parse_unsigned_text(s, usize::MAX as u64) {
        Ok(v) => Ok(v as usize),
        Err(e) => Err(e),
    }
}

/// The pieces of a comma-separated list, trimmed, without the empty ones.
pub open spec fn kept_pieces(parts: Seq<Seq<char>>) -> Seq<Seq<char>>
    decreases parts.len(),
{
    if parts.len() == 0 {
        seq![]
    } else if trim(parts.last()).len() == 0 {
        kept_pieces(parts.drop_last())
    } else {
        kept_pieces(parts.drop_last()).push(trim(parts.last()))
    }
}

/// The allowed origins named by a comma-separated list.
pub fn parse_origins(list: &str) -> (r: Vec<String>)
    ensures
        crate::text::strs(r@) == kept_pieces(split_on(list@, ',')),
{
    let cs = chars_of(list);
    let parts = split_char(&cs, ',');
    let mut out: Vec<String> = Vec::new();
    let mut i: usize = 0;
    while i < parts.len()
        invariant
            i <= parts@.len(),
            views(parts@) == split_on(list@, ','),
            crate::text::strs(out@) == kept_pieces(views(parts@).take(i as int)),
        decreases parts@.len() - i,
    {
        assert(views(parts@).take(i + 1).drop_last() =~= views(parts@).take(i as int));
        assert(views(parts@).take(i + 1).last() == parts@[i as int]@);
        let t = trim_chars(&parts[i]);
        if t.len() > 0 {
            out.push(string_of(&t));
            assert(crate::text::strs(out@) =~= kept_pieces(views(parts@).take(i as int)).push(t@));
        }
        i = i + 1;
    }
    assert(views(parts@).take(parts@.len() as int) =~= views(parts@));
    out
}

/// The settings of the server.
pub struct Config {
    pub host: String,
    pub port: u16,
    pub database_url: String,
    pub jwt_secret: String,
    pub jwt_access_expiry_secs: i64,
    pub jwt_refresh_expiry_secs: i64,
    /// Seconds a closed connection's locks are kept before release.
    pub ws_lock_timeout_secs: u64,
    /// Origins allowed by CORS; empty means any.
    pub allowed_origins: Vec<String>,
    /// Login and registration attempts allowed per address per minute.
    pub auth_rate_limit_per_min: u32,
}

/// The values of the environment variables the settings come from
/// (`None`: not set).
pub struct EnvVars {
    pub host: Option<String>,
    pub port: Option<String>,
    pub database_url: Option<String>,
    pub jwt_secret: Option<String>,
    pub allowed_origins: Option<String>,
    pub auth_rate_limit_per_min: Option<String>,
}

pub open spec fn or_default(v: Option<String>, d: Seq<char>) -> Seq<char> {
    match v {
        Some(s) => s@,
        None => d,
    }
}

fn text_or(v: Option<String>, d: &str) -> (r: String)
    ensures
        r@ == or_default(v, d@),
{
    match v {
        Some(s) => s,
        None => String::from_str(d),
    }
}

impl Config {
    /// The settings for the given variables: `HOST` (default `0.0.0.0`),
    /// `PORT` (default 8080; a value that is not a port is an error),
    /// `DATABASE_URL`, `JWT_SECRET`, `ALLOWED_ORIGINS` (comma-separated)
    /// and `AUTH_RATE_LIMIT_PER_MIN` (default, and when unreadable, 10);
    /// tokens last 30 minutes (access) and 7 days (refresh), and locks are
    /// kept 30 s after a connection closes.
    pub fn from_vars(vars: EnvVars) -> (r: Result<Config, IntError>)
        ensures
            match parse_unsigned(or_default(vars.port, "8080"@), u16::MAX as nat) {
                Err(e) => r == Err::<Config, IntError>(e),
                Ok(port) => r matches Ok(c) && {
                    &&& c.port == port
                    &&& c.host@ == or_default(vars.host, "0.0.0.0"@)
                    &&& c.database_url@ == or_default(vars.database_url, "sqlite://memoq.db"@)
                    &&& c.jwt_secret@ == or_default(
                        vars.jwt_secret,
                        "change-me-in-production-secret-key"@,
                    )
                    &&& c.jwt_access_expiry_secs == 1800
                    &&& c.jwt_refresh_expiry_secs == 604800
                    &&& c.ws_lock_timeout_secs == 30
                    &&& crate::text::strs(c.allowed_origins@) == kept_pieces(
                        split_on(or_default(vars.allowed_origins, ""@), ','),
                    )
                    &&& c.auth_rate_limit_per_min == match vars.auth_rate_limit_per_min {
                        Some(t) => match parse_unsigned(t@, u32::MAX as nat) {
                            Ok(n) => n,
                            Err(_) => 10,
                        },
                        None => 10,
                    }
                },
            },
    {
        let port_text = text_or(vars.port, "8080");
        let port = match parse_u16(port_text.as_str()) {
            Ok(p) => p,
            Err(e) => {
                return Err(e);
            },
        };
        let origins_text = text_or(vars.allowed_origins, "");
        let allowed_origins = parse_origins(origins_text.as_str());
        let auth_rate_limit_per_min = match vars.auth_rate_limit_per_min {
            Some(t) => match parse_u32(t.as_str()) {
                Ok(n) => n,
                Err(_) => 10,
            },
            None => 10,
        };
        Ok(
            Config {
                host: text_or(vars.host, "0.0.0.0"),
                port,
                database_url: text_or(vars.database_url, "sqlite://memoq.db"),
                jwt_secret: text_or(vars.jwt_secret, "change-me-in-production-secret-key"),
                jwt_access_expiry_secs: 30 * 60,
                jwt_refresh_expiry_secs: 7 * 24 * 3600,
                ws_lock_timeout_secs: 30,
                allowed_origins,
                auth_rate_limit_per_min,
            },
        )
    }
}

/// The quota of the authentication rate limiter: the configured rate, at
/// least one request per minute.
pub fn limiter_quota(per_minute: u32) -> (r: u32)
    ensures
        r == if per_minute >= 1 {
            per_minute
        } else {
            1
        },
{
    if per_minute >= 1 {
        per_minute
    } else {
        1
    }
}

} // verus!
