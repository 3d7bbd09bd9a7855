//! Authentication: bcrypt password hashes, HS256 access tokens, the bearer
//! scheme, and the decisions of logging in and changing a password.
use vstd::prelude::*;
use crate::config::Config;
use crate::errors::{message_view, unauthorized_view, ApiError};
use crate::limiter::LoginRateLimiter;
use crate::schemas::PasswordChange;
use crate::text::{lemma_signed_decimal_parses, ascii_lower, ascii_lower_eq, decimal, parse_i64, parse_i64_str, signed_decimal, split_words, str_eq, words, write_decimal, write_i64};
use crate::clock::clock_secs_micros;
use vstd::utf8::encode_utf8;
use rand::seq::SliceRandom;

verus! {

/// The bcrypt work factor of new password hashes.
pub const BCRYPT_COST: u32 = 12;

/// Whether `bcrypt::verify` accepts `password` against `hash` (an error,
/// such as a malformed hash, counts as not accepted). It depends on its two
/// arguments alone.
pub uninterp spec fn bcrypt_verifies(password: Seq<char>, hash: Seq<char>) -> bool;

/// `bcrypt::hash(password, cost)`, with a random salt. It fails only if the
/// cost is outside 4..=31 (excluded here) or the system's randomness fails
/// (`None`). The hash it returns verifies against the password: `verify`
/// recomputes it from the cost and salt written in the hash.
#[verifier::external_body]
fn bcrypt_hash(password: &str, cost: u32) -> (r: Option<String>)
    requires
        4 <= cost <= 31,
    ensures
        r matches Some(h) ==> bcrypt_verifies(password@, h@),
{
    bcrypt::hash(password, cost).ok()
}

/// `bcrypt::verify(password, hash)`, an error counting as `false`.
#[verifier::external_body]
fn bcrypt_verify(password: &str, hash: &str) -> (r: bool)
    ensures
        r == bcrypt_verifies(password@, hash@),
{
    bcrypt::verify(password, hash).unwrap_or(false)
}

/// A bcrypt hash of `plain` at `BCRYPT_COST`; `None` when the system's
/// randomness fails.
pub fn hash_password(plain: &str) -> (r: Option<String>)
    ensures
        r matches Some(h) ==> bcrypt_verifies(plain@, h@),
{
    bcrypt_hash(plain, BCRYPT_COST)
}

/// Whether `plain` matches the bcrypt hash `hashed` (a malformed hash does not match).
pub fn verify_password(plain: &str, hashed: &str) -> (r: bool)
    ensures
        r == bcrypt_verifies(plain@, hashed@),
{
    bcrypt_verify(plain, hashed)
}

/// The HS256 JSON Web Token whose claims are `{"sub": sub, "exp": exp,
/// "iat": iat}`, signed with `secret`. It depends on its arguments alone.
pub uninterp spec fn jwt_hs256(sub: Seq<char>, exp: int, iat: int, secret: Seq<u8>) -> Seq<char>;

/// `jsonwebtoken::encode` with an HS256 header and the claims
/// `{"sub", "exp", "iat"}`. For an HMAC key and a JSON value, `encode`
/// cannot fail (its source signs with HMAC and serialises a JSON value);
/// the body's fallback to an empty string is never taken. `decode` with the
/// same key gives the claims back: the header names HS256, the HMAC of the
/// same key verifies, and a non-negative `exp` is a `u64`.
#[verifier::external_body]
fn jwt_encode(sub: &str, exp: i64, iat: i64, secret: &[u8]) -> (r: String)
    ensures
        r@ == jwt_hs256(sub@, exp as int, iat as int, secret@),
        exp >= 0 ==> jwt_verified_claims(r@, secret@) == Some((Some(sub@), exp as int)),
{
    let mut claims = serde_json::Map::new();
    claims.insert("sub".to_string(), serde_json::Value::from(sub));
    claims.insert("exp".to_string(), serde_json::Value::from(exp));
    claims.insert("iat".to_string(), serde_json::Value::from(iat));
    let header = jsonwebtoken::Header::new(jsonwebtoken::Algorithm::HS256);
    let key = jsonwebtoken::EncodingKey::from_secret(secret);
    jsonwebtoken::encode(&header, &serde_json::Value::Object(claims), &key).unwrap_or_default()
}

/// What `jsonwebtoken::decode` makes of `token` with the HMAC key `secret`
/// under HS256 (`Validation::new(HS256)`) when the expiry is not compared
/// with the clock (`validate_exp = false`): `None` when the token is
/// malformed, not signed with `secret`, or has no `exp` claim that is a
/// `u64`; else its `sub` claim when that is a string, and its `exp`. It
/// depends on its two arguments alone.
pub uninterp spec fn jwt_verified_claims(token: Seq<char>, secret: Seq<u8>) -> Option<(Option<Seq<char>>, int)>;

/// The number of `.` characters in a text.
pub open spec fn dot_count(s: Seq<char>) -> nat {
    s.filter(|c: char| c == '.').len()
}

pub open spec fn claims_view(r: Option<(Option<String>, u64)>) -> Option<(Option<Seq<char>>, int)> {
    match r {
        Some((sub, exp)) => Some((match sub { Some(t) => Some(t@), None => None }, exp as int)),
        None => None,
    }
}

/// `jsonwebtoken::decode` of an HS256 token with `secret`, the expiry not
/// compared with the clock: the `sub` claim (when a string) and the `exp`
/// claim (when a `u64`). Its source splits the token at its last two `.`
/// first, so a token with fewer than two `.` is refused. An `exp` that is a
/// JSON number but not an integer is read here as missing, where
/// jsonwebtoken would round it; only a holder of the secret could sign such
/// a token.
#[verifier::external_body]
fn jwt_verify(token: &str, secret: &[u8]) -> (r: Option<(Option<String>, u64)>)
    ensures
        claims_view(r) == jwt_verified_claims(token@, secret@),
        dot_count(token@) < 2 ==> r is None,
{
    let mut validation = jsonwebtoken::Validation::new(jsonwebtoken::Algorithm::HS256);
    validation.validate_exp = false;
    let key = jsonwebtoken::DecodingKey::from_secret(secret);
    match jsonwebtoken::decode::<serde_json::Value>(token, &key, &validation) {
        Ok(data) => match data.claims.get("exp").and_then(serde_json::Value::as_u64) {
            Some(exp) => Some((data.claims.get("sub").and_then(serde_json::Value::as_str).map(String::from), exp)),
            None => None,
        },
        Err(_) => None,
    }
}

/// Seconds of clock skew accepted on a token's expiry.
pub const TOKEN_LEEWAY: u64 = 0;

/// Whether `expire_minutes * 60` and `now + expire_minutes * 60` fit in `i64`.
pub open spec fn token_expiry_fits(now: int, expire_minutes: int) -> bool {
    i64::MIN <= expire_minutes * 60 <= i64::MAX && i64::MIN <= now + expire_minutes * 60 <= i64::MAX
}

/// The access token of user `user_id` issued at `now`: subject the id in
/// decimal, expiring `expire_minutes` minutes later. `None` when the
/// expiry does not fit in `i64`.
pub fn access_token_at(user_id: i64, expire_minutes: i64, secret: &str, now: i64) -> (r: Option<String>)
    ensures
        match r {
            Some(t) => {
                &&& token_expiry_fits(now as int, expire_minutes as int)
                &&& t@ == jwt_hs256(signed_decimal(user_id as int), now + expire_minutes * 60, now as int, encode_utf8(secret@))
                &&& (now + expire_minutes * 60 >= 0 ==> jwt_verified_claims(t@, encode_utf8(secret@))
                    == Some((Some(signed_decimal(user_id as int)), now + expire_minutes * 60)))
            },
            None => !token_expiry_fits(now as int, expire_minutes as int),
        },
{
    let span = match expire_minutes.checked_mul(60) {
        Some(s) => s,
        None => return None,
    };
    let exp = match now.checked_add(span) {
        Some(e) => e,
        None => return None,
    };
    let mut sub = String::new();
    write_i64(&mut sub, user_id);
    Some(jwt_encode(sub.as_str(), exp, now, secret.as_bytes()))
}

/// The access token of user `user_id`, issued now (whole seconds of the
/// clock) and valid for `cfg.token_expire_minutes` minutes; `None` when the
/// expiry does not fit in `i64`.
pub fn create_access_token(user_id: i64, cfg: &Config) -> (r: Option<String>)
    ensures
        match r {
            Some(t) => exists|now: i64| {
                &&& token_expiry_fits(now as int, cfg.token_expire_minutes as int)
                &&& t@ == jwt_hs256(signed_decimal(user_id as int), now + cfg.token_expire_minutes * 60, now as int, encode_utf8(cfg.secret_key@))
                &&& (now + cfg.token_expire_minutes * 60 >= 0 ==> jwt_verified_claims(t@, encode_utf8(cfg.secret_key@))
                    == Some((Some(signed_decimal(user_id as int)), now + cfg.token_expire_minutes * 60)))
            },
            None => exists|now: i64| !token_expiry_fits(now as int, cfg.token_expire_minutes as int),
        },
{
    let (secs, _micros) = clock_secs_micros();
    let now = secs as i64;
    access_token_at(user_id, cfg.token_expire_minutes, cfg.secret_key.as_str(), now)
}

/// The user id a token's subject names: the subject parsed as `i64`.
pub open spec fn subject_id(sub: Option<Seq<char>>) -> Option<i64> {
    match sub {
        Some(s) => parse_i64(s),
        None => None,
    }
}

/// The user id of a decoded token's subject (`None` for no subject or one
/// that is not an `i64`).
pub fn subject_user_id(sub: Option<&str>) -> (r: Option<i64>)
    ensures
        r == subject_id(match sub { Some(s) => Some(s@), None => None::<Seq<char>> }),
{
    match sub {
        Some(s) => parse_i64_str(s),
        None => None,
    }
}

/// The user a token names at time `now` (seconds since the epoch): its
/// verified claims, unless `exp` lies before `now` (jsonwebtoken's
/// `exp < now - leeway`, the leeway being 0), then the subject parsed as
/// `i64`.
pub open spec fn token_user(claims: Option<(Option<Seq<char>>, int)>, now: int) -> Option<i64> {
    match claims {
        Some((sub, exp)) => if exp < now - TOKEN_LEEWAY { None } else { subject_id(sub) },
        None => None,
    }
}

/// The user id of a token at time `now`: signed with the configured secret,
/// not expired at `now`, with a subject that is an `i64`.
pub fn decode_token_at(token: &str, cfg: &Config, now: u64) -> (r: Option<i64>)
    ensures
        r == token_user(jwt_verified_claims(token@, encode_utf8(cfg.secret_key@)), now as int),
        dot_count(token@) < 2 ==> r is None,
{
    match jwt_verify(token, cfg.secret_key.as_str().as_bytes()) {
        Some((sub, exp)) => {
            if exp < now - TOKEN_LEEWAY {
                None
            } else {
                match &sub {
                    Some(t) => subject_user_id(Some(t.as_str())),
                    None => subject_user_id(None),
                }
            }
        },
        None => None,
    }
}

/// The user id of a valid, unexpired HS256 token signed with the
/// configured secret, at the current time of the clock; `None` otherwise.
pub fn decode_token(token: &str, cfg: &Config) -> (r: Option<i64>)
    ensures
        exists|now: u64| r == token_user(jwt_verified_claims(token@, encode_utf8(cfg.secret_key@)), now as int),
        dot_count(token@) < 2 ==> r is None,
{
    let (secs, _micros) = clock_secs_micros();
    decode_token_at(token, cfg, secs)
}

/// A token issued for user `id` with expiry `exp` names that user at every
/// time up to its expiry.
pub proof fn lemma_issued_token_decodes(id: i64, exp: int, now: int)
    requires
        now <= exp,
    ensures
        token_user(Some((Some(signed_decimal(id as int)), exp)), now) == Some(id),
{
    lemma_signed_decimal_parses(id);
}

/// After its expiry a token names nobody.
pub proof fn lemma_expired_token_refused(claims: Option<(Option<Seq<char>>, int)>, now: int)
    requires
        claims matches Some((_, exp)) && exp < now,
    ensures
        token_user(claims, now) is None,
{
}

/// The token of an `Authorization` header value `<scheme> <token>`: exactly
/// two white-space separated words, the scheme `bearer` in any ASCII case.
pub open spec fn bearer_spec(value: Seq<char>) -> Option<Seq<char>> {
    let w = words(value);
    if w.len() == 2 && ascii_lower(w[0]) == "bearer"@ {
        Some(w[1])
    } else {
        None
    }
}

/// The bearer token of an `Authorization` header value.
pub fn bearer_token(value: &str) -> (r: Option<String>)
    ensures
        match r {
            Some(t) => bearer_spec(value@) == Some(t@),
            None => bearer_spec(value@) is None,
        },
{
    let mut w = split_words(value);
    if w.len() != 2 {
        return None;
    }
    let token = w.pop().unwrap();
    let scheme = w.pop().unwrap();
    proof { reveal_strlit("bearer"); }
    if ascii_lower_eq(scheme.as_str(), "bearer") {
        Some(token)
    } else {
        None
    }
}

/// The user that an `Authorization` header value names at time `now`:
/// its bearer token, decoded with `secret`.
pub open spec fn header_user(header: Option<Seq<char>>, secret: Seq<u8>, now: u64) -> Option<i64> {
    match header {
        None => None,
        Some(v) => match bearer_spec(v) {
            None => None,
            Some(t) => token_user(jwt_verified_claims(t, secret), now as int),
        },
    }
}

pub open spec fn opt_text(o: Option<&str>) -> Option<Seq<char>> {
    match o {
        Some(v) => Some(v@),
        None => None,
    }
}

/// The user id that an `Authorization` header authenticates, before the
/// user is looked up: its bearer token, decoded at the current time.
pub fn authenticate(header: Option<&str>, cfg: &Config) -> (r: Option<i64>)
    ensures
        exists|now: u64| r == #[trigger] header_user(opt_text(header), encode_utf8(cfg.secret_key@), now),
        header is None ==> r is None,
        header matches Some(v) && (bearer_spec(v@) is None
            || (bearer_spec(v@) matches Some(t) && dot_count(t) < 2)) ==> r is None,
{
    match header {
        Some(v) => match bearer_token(v) {
            Some(t) => {
                let r = decode_token(t.as_str(), cfg);
                proof {
                    let key = encode_utf8(cfg.secret_key@);
                    let now = choose|now: u64| r == token_user(jwt_verified_claims(t@, key), now as int);
                    assert(r == header_user(opt_text(header), key, now));
                }
                r
            },
            None => {
                assert(header_user(opt_text(header), encode_utf8(cfg.secret_key@), 0) is None);
                None
            },
        },
        None => {
            assert(header_user(opt_text(header), encode_utf8(cfg.secret_key@), 0) is None);
            None
        },
    }
}

/// A logged-in user.
#[derive(Debug, Clone)]
pub struct AuthUser {
    pub id: i64,
    pub username: String,
}

/// The message of a request that needs a login and has none.
pub open spec fn not_logged_in() -> Seq<char> {
    "未登录或登录已过期"@
}

impl AuthUser {
    /// The user a request is authenticated as: the user that its token
    /// names, if that user exists; else 401.
    pub fn require(found: Option<AuthUser>) -> (r: Result<AuthUser, ApiError>)
        ensures
            match found {
                Some(u) => r == Ok::<AuthUser, ApiError>(u),
                None => r matches Err(e) && e@ == unauthorized_view(not_logged_in()),
            },
    {
        match found {
            Some(u) => Ok(u),
            None => Err(ApiError::unauthorized("未登录或登录已过期")),
        }
    }
}

/// The user of a request if it carries a valid token, else nobody; never an error.
#[derive(Debug, Clone, Default)]
pub struct OptionalAuthUser(pub Option<AuthUser>);

/// The client's address as text, `unknown` when the connection's peer is not known.
#[derive(Debug)]
pub struct ClientIp(pub String);

impl ClientIp {
    /// The address of the peer, or `unknown`.
    pub fn from_peer(peer: Option<String>) -> (r: ClientIp)
        ensures
            r.0@ == match peer { Some(p) => p@, None => "unknown"@ },
    {
        match peer {
            Some(p) => ClientIp(p),
            None => ClientIp(String::from_str("unknown")),
        }
    }
}

// ---------- logging in ----------

/// The limiter key of a login attempt: the client address, `:`, the user name.
pub open spec fn login_key_spec(ip: Seq<char>, username: Seq<char>) -> Seq<char> {
    ip + ":"@ + username
}

pub fn login_key(ip: &str, username: &str) -> (r: String)
    ensures
        r@ == login_key_spec(ip@, username@),
{
    let mut k = String::from_str(ip);
    k.append(":");
    k.append(username);
    k
}

/// The answer to a login whose key is locked for `locked` more seconds.
pub open spec fn lockout_message(locked: nat) -> Seq<char> {
    "失败次数过多，请 "@ + decimal(locked / 60 + 1) + " 分钟后重试"@
}

/// Lets a login through when the limiter's lock check answered 0, else
/// refuses it with 429 and the minutes left, rounded up past the minute.
pub fn login_lockout(locked: u64) -> (r: Result<(), ApiError>)
    ensures
        r is Ok <==> locked == 0,
        r matches Err(e) ==> e@ == message_view(429, lockout_message(locked as nat)),
{
    if locked == 0 {
        return Ok(());
    }
    let mut msg = String::from_str("失败次数过多，请 ");
    write_decimal(&mut msg, locked / 60 + 1);
    msg.append(" 分钟后重试");
    Err(ApiError::too_many_requests(msg.as_str()))
}

/// The messages a failed login answers with, one picked at random, so that
/// the answer does not tell whether the user exists.
pub open spec fn fail_message(i: int) -> Seq<char> {
    if i == 0 {
        "用户名或密码错误"@
    } else if i == 1 {
        "用户名或密码错误，请重试"@
    } else {
        "账号或密码不正确"@
    }
}

/// `SliceRandom::choose` on the thread's generator: one of the texts, picked
/// at random (the slice must not be empty, where `choose` gives `None`).
/// `thread_rng` panics only when the system cannot seed the generator.
#[verifier::external_body]
fn choose_text(options: &[&'static str]) -> (r: &'static str)
    requires
        options@.len() > 0,
    ensures
        options@.contains(r),
{
    match options.choose(&mut rand::thread_rng()) {
        Some(t) => t,
        None => options[0],
    }
}

/// A failed login (unknown user or wrong password): the failure is recorded
/// under `key`, and the answer is 401 with one of the failure messages.
pub fn login_failure(limiter: &mut LoginRateLimiter, key: &str) -> (r: ApiError)
    requires
        old(limiter).wf(),
    ensures
        final(limiter).wf(),
        final(limiter).spec_max_failures() == old(limiter).spec_max_failures(),
        final(limiter).spec_lock_seconds() == old(limiter).spec_lock_seconds(),
        forall|k: Seq<char>| k != key@ ==> final(limiter).failures(k) == old(limiter).failures(k),
        final(limiter).spec_latest() >= old(limiter).spec_latest(),
        final(limiter).failures(key@) == old(limiter).failures(key@).push(final(limiter).spec_latest()),
        exists|i: int| 0 <= i < 3 && r@ == unauthorized_view(fail_message(i)),
{
    limiter.record_failure(key);
    let options: [&'static str; 3] = ["用户名或密码错误", "用户名或密码错误，请重试", "账号或密码不正确"];
    let msg = choose_text(&options);
    let r = ApiError::unauthorized(msg);
    proof {
        let i = choose|i: int| 0 <= i < options@.len() && msg == options@[i];
        assert(r@ == unauthorized_view(fail_message(i)));
    }
    r
}

/// The message of an internal failure.
pub open spec fn internal_error() -> Seq<char> {
    "服务器内部错误"@
}

/// What a successful login answers: the access token and the user.
#[derive(Debug)]
pub struct LoginReply {
    pub token: String,
    pub user: AuthUser,
}

/// A successful login of `user`: the failures under `key` are forgotten and
/// an access token is issued; 500 when its expiry does not fit in `i64`.
pub fn login_success(limiter: &mut LoginRateLimiter, key: &str, user: AuthUser, cfg: &Config) -> (r: Result<LoginReply, ApiError>)
    requires
        old(limiter).wf(),
    ensures
        final(limiter).wf(),
        final(limiter).spec_max_failures() == old(limiter).spec_max_failures(),
        final(limiter).spec_lock_seconds() == old(limiter).spec_lock_seconds(),
        final(limiter).spec_latest() == old(limiter).spec_latest(),
        final(limiter).failures(key@) == Seq::<u64>::empty(),
        forall|k: Seq<char>| k != key@ ==> final(limiter).failures(k) == old(limiter).failures(k),
        match r {
            Ok(reply) => {
                &&& reply.user == user
                &&& exists|now: i64| {
                    &&& token_expiry_fits(now as int, cfg.token_expire_minutes as int)
                    &&& reply.token@ == jwt_hs256(signed_decimal(user.id as int), now + cfg.token_expire_minutes * 60, now as int, encode_utf8(cfg.secret_key@))
                    &&& (now + cfg.token_expire_minutes * 60 >= 0 ==> jwt_verified_claims(reply.token@, encode_utf8(cfg.secret_key@))
                        == Some((Some(signed_decimal(user.id as int)), now + cfg.token_expire_minutes * 60)))
                }
            },
            Err(e) => {
                &&& e@ == message_view(500, internal_error())
                &&& exists|now: i64| !token_expiry_fits(now as int, cfg.token_expire_minutes as int)
            },
        },
{
    limiter.reset(key);
    match create_access_token(user.id, cfg) {
        Some(token) => Ok(LoginReply { token, user }),
        None => Err(ApiError::message(500, "服务器内部错误")),
    }
}

// ---------- changing the password ----------

/// The checks of a password change, given the stored hash of the logged-in
/// user (`None`: the user is gone): 401 for a vanished user, 400 for a wrong
/// old password, 400 when the new password equals the old one; else the
/// hash of the new password (500 if hashing fails, when the system's
/// randomness fails).
pub fn change_password_check(stored_hash: Option<&str>, req: &PasswordChange) -> (r: Result<String, ApiError>)
    ensures
        match stored_hash {
            None => r matches Err(e) && e@ == unauthorized_view(not_logged_in()),
            Some(h) => if !bcrypt_verifies(req.old_password@, h@) {
                r matches Err(e) && e@ == message_view(400, "原密码错误"@)
            } else if req.old_password@ == req.new_password@ {
                r matches Err(e) && e@ == message_view(400, "新密码不能与原密码相同"@)
            } else {
                match r {
                    Ok(nh) => bcrypt_verifies(req.new_password@, nh@),
                    Err(e) => e@ == message_view(500, internal_error()),
                }
            },
        },
{
    let h = match stored_hash {
        Some(h) => h,
        None => return Err(ApiError::unauthorized("未登录或登录已过期")),
    };
    if !verify_password(req.old_password.as_str(), h) {
        return Err(ApiError::bad_request("原密码错误"));
    }
    if str_eq(req.old_password.as_str(), req.new_password.as_str()) {
        return Err(ApiError::bad_request("新密码不能与原密码相同"));
    }
    match hash_password(req.new_password.as_str()) {
        Some(nh) => Ok(nh),
        None => Err(ApiError::message(500, "服务器内部错误")),
    }
}

} // verus!
