use navhub::auth::{
    access_token_at, authenticate, decode_token_at, bearer_token, change_password_check, create_access_token, decode_token,
    hash_password, login_failure, login_key, login_lockout, login_success, subject_user_id, verify_password,
    AuthUser, ClientIp, BCRYPT_COST,
};
use navhub::config::{Config, EnvValues};
use navhub::errors::{ApiError, ErrorBody};
use navhub::limiter::LoginRateLimiter;
use navhub::schemas::PasswordChange;

fn empty_env() -> EnvValues {
    EnvValues {
        app_name: None,
        host: None,
        port: None,
        debug: None,
        token_expire_minutes: None,
        cors_origins: None,
        login_max_failures: None,
        login_lock_minutes: None,
        data_dir: None,
        upload_max_mb: None,
        admin_username: None,
        admin_password: None,
    }
}

fn test_config() -> Config {
    let mut cfg = Config::from_env("/tmp/navhub-test".to_string(), &empty_env());
    cfg.secret_key = "unit-test-secret".to_string();
    cfg
}

fn message_of(e: &ApiError) -> String {
    match &e.body {
        ErrorBody::Message(m) => m.clone(),
        ErrorBody::Fields(_) => panic!("expected a message body"),
    }
}

#[test]
fn password_hash_round_trip() {
    assert_eq!(BCRYPT_COST, 12);
    let h = hash_password("s3cret-pass").expect("hashing works");
    assert!(h.starts_with("$2b$12$"));
    assert_ne!(h, "s3cret-pass");
    assert!(verify_password("s3cret-pass", &h));
    assert!(!verify_password("wrong", &h));
}

#[test]
fn verify_password_malformed_hash_is_false() {
    assert!(!verify_password("x", "not-a-bcrypt-hash"));
    assert!(!verify_password("x", ""));
}

#[test]
fn access_token_claims() {
    let now: i64 = 1_700_000_000;
    let t = access_token_at(42, 1440, "k", now).expect("fits");
    assert_ne!(t, "42");
    let mut v = jsonwebtoken::Validation::new(jsonwebtoken::Algorithm::HS256);
    v.validate_exp = false;
    let data = jsonwebtoken::decode::<serde_json::Value>(&t, &jsonwebtoken::DecodingKey::from_secret(b"k"), &v)
        .expect("signed with the secret");
    assert_eq!(data.claims["sub"], "42");
    assert_eq!(data.claims["iat"], now);
    assert_eq!(data.claims["exp"], now + 1440 * 60);
    assert_eq!(data.header.alg, jsonwebtoken::Algorithm::HS256);
}

#[test]
fn access_token_negative_user_id() {
    let t = access_token_at(-7, 1, "k", 0).unwrap();
    let mut v = jsonwebtoken::Validation::new(jsonwebtoken::Algorithm::HS256);
    v.validate_exp = false;
    let data = jsonwebtoken::decode::<serde_json::Value>(&t, &jsonwebtoken::DecodingKey::from_secret(b"k"), &v).unwrap();
    assert_eq!(data.claims["sub"], "-7");
}

#[test]
fn access_token_overflow_is_none() {
    assert!(access_token_at(1, i64::MAX, "k", 0).is_none());
    assert!(access_token_at(1, 1, "k", i64::MAX).is_none());
}

#[test]
fn token_round_trip_with_clock() {
    let cfg = test_config();
    let t = create_access_token(7, &cfg).expect("fits");
    assert_eq!(decode_token(&t, &cfg), Some(7));
    let mut other = test_config();
    other.secret_key = "another-secret".to_string();
    assert_eq!(decode_token(&t, &other), None);
}

#[test]
fn test_invalid_token_rejected() {
    let cfg = test_config();
    assert_eq!(decode_token("invalid.token.here", &cfg), None);
    assert_eq!(authenticate(Some("Bearer invalid.token.here"), &cfg), None);
    // an expired token is refused
    let old = access_token_at(7, 1, "unit-test-secret", 1_000_000).unwrap();
    assert_eq!(decode_token(&old, &cfg), None);
}

#[test]
fn subject_ids() {
    assert_eq!(subject_user_id(Some("12")), Some(12));
    assert_eq!(subject_user_id(Some("-3")), Some(-3));
    assert_eq!(subject_user_id(Some("abc")), None);
    assert_eq!(subject_user_id(Some("9223372036854775808")), None);
    assert_eq!(subject_user_id(None), None);
}

#[test]
fn bearer_tokens() {
    assert_eq!(bearer_token("Bearer abc"), Some("abc".to_string()));
    assert_eq!(bearer_token("bEaReR   abc  "), Some("abc".to_string()));
    assert_eq!(bearer_token("Basic abc"), None);
    assert_eq!(bearer_token("Bearer"), None);
    assert_eq!(bearer_token("Bearer a b"), None);
    assert_eq!(bearer_token(""), None);
}

#[test]
fn authenticate_with_header() {
    let cfg = test_config();
    let t = create_access_token(5, &cfg).unwrap();
    assert_eq!(authenticate(Some(&format!("Bearer {t}")), &cfg), Some(5));
    assert_eq!(authenticate(Some(&format!("Token {t}")), &cfg), None);
    assert_eq!(authenticate(None, &cfg), None);
}

#[test]
fn require_user() {
    let u = AuthUser::require(Some(AuthUser { id: 1, username: "admin".to_string() })).unwrap();
    assert_eq!(u.id, 1);
    let e = AuthUser::require(None).unwrap_err();
    assert_eq!(e.status, 401);
    assert!(e.www_auth);
    assert_eq!(message_of(&e), "未登录或登录已过期");
}

#[test]
fn client_ip_from_peer() {
    assert_eq!(ClientIp::from_peer(Some("1.2.3.4".to_string())).0, "1.2.3.4");
    assert_eq!(ClientIp::from_peer(None).0, "unknown");
}

#[test]
fn login_keys() {
    assert_eq!(login_key("127.0.0.1", "admin"), "127.0.0.1:admin");
    assert_eq!(login_key("", ""), ":");
}

#[test]
fn lockout_messages() {
    assert!(login_lockout(0).is_ok());
    let e = login_lockout(59).unwrap_err();
    assert_eq!(e.status, 429);
    assert_eq!(message_of(&e), "失败次数过多，请 1 分钟后重试");
    assert_eq!(message_of(&login_lockout(60).unwrap_err()), "失败次数过多，请 2 分钟后重试");
    assert_eq!(message_of(&login_lockout(900).unwrap_err()), "失败次数过多，请 16 分钟后重试");
}

#[test]
fn test_login_wrong_password() {
    // every failure is a 401 with one of the neutral messages, and is counted
    let mut l = LoginRateLimiter::new(5, 15);
    let key = login_key("127.0.0.1", "admin");
    for _ in 0..4 {
        let e = login_failure(&mut l, &key);
        assert_eq!(e.status, 401);
        assert!(e.www_auth);
        let m = message_of(&e);
        assert!(["用户名或密码错误", "用户名或密码错误，请重试", "账号或密码不正确"].contains(&m.as_str()));
        assert!(login_lockout(l.check_locked(&key)).is_ok());
    }
    login_failure(&mut l, &key);
    let e = login_lockout(l.check_locked(&key)).unwrap_err();
    assert_eq!(e.status, 429);
}

#[test]
fn login_success_resets_and_issues_token() {
    let cfg = test_config();
    let mut l = LoginRateLimiter::new(2, 15);
    let key = login_key("1.1.1.1", "admin");
    login_failure(&mut l, &key);
    let reply = login_success(&mut l, &key, AuthUser { id: 3, username: "admin".to_string() }, &cfg).unwrap();
    assert_eq!(reply.user.id, 3);
    assert_eq!(reply.user.username, "admin");
    assert_eq!(decode_token(&reply.token, &cfg), Some(3));
    login_failure(&mut l, &key);
    assert_eq!(l.check_locked(&key), 0);
}

#[test]
fn login_success_overflowing_expiry() {
    let mut cfg = test_config();
    cfg.token_expire_minutes = i64::MAX;
    let mut l = LoginRateLimiter::new(2, 15);
    let e = login_success(&mut l, "k", AuthUser { id: 1, username: "a".to_string() }, &cfg).unwrap_err();
    assert_eq!(e.status, 500);
    assert_eq!(message_of(&e), "服务器内部错误");
}

#[test]
fn password_change_checks() {
    let stored = bcrypt::hash("old-pass", 4).unwrap();
    let req = |o: &str, n: &str| PasswordChange { old_password: o.to_string(), new_password: n.to_string() };

    let e = change_password_check(None, &req("old-pass", "new-pass")).unwrap_err();
    assert_eq!(e.status, 401);

    let e = change_password_check(Some(&stored), &req("bad", "new-pass")).unwrap_err();
    assert_eq!((e.status, message_of(&e).as_str()), (400, "原密码错误"));

    let e = change_password_check(Some(&stored), &req("old-pass", "old-pass")).unwrap_err();
    assert_eq!((e.status, message_of(&e).as_str()), (400, "新密码不能与原密码相同"));

    let h = change_password_check(Some(&stored), &req("old-pass", "new-pass")).unwrap();
    assert!(bcrypt::verify("new-pass", &h).unwrap());
    assert!(!bcrypt::verify("old-pass", &h).unwrap());
}

#[test]
fn token_decoding_at_a_time() {
    let cfg = test_config();
    let t = access_token_at(7, 1, "unit-test-secret", 1000).unwrap();
    assert_eq!(decode_token_at(&t, &cfg, 1000), Some(7));
    assert_eq!(decode_token_at(&t, &cfg, 1060), Some(7));
    assert_eq!(decode_token_at(&t, &cfg, 1061), None);
    let mut other = test_config();
    other.secret_key = "another".to_string();
    assert_eq!(decode_token_at(&t, &other, 1000), None);
    assert_eq!(decode_token_at("invalid.token.here", &cfg, 0), None);
    assert_eq!(decode_token_at("nodots", &cfg, 0), None);
    let min = access_token_at(i64::MIN, 1, "unit-test-secret", 0).unwrap();
    assert_eq!(decode_token_at(&min, &cfg, 0), Some(i64::MIN));
}
