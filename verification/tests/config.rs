use navhub::config::{choose_secret, encode_base64url, env_bool, env_value, generate_secret, Config, EnvValues};

fn env() -> EnvValues {
    EnvValues {
        app_name: None,
        host: None,
        port: None,
        debug: None,
        token_expire_minutes: None,
        cors_origins: None,
        login_max_failures: None,
        login_lock_minutes: None,
        data_dir: None,
        upload_max_mb: None,
        admin_username: None,
        admin_password: None,
    }
}

#[test]
fn config_defaults() {
    let c = Config::from_env("/srv/navhub".to_string(), &env());
    assert_eq!(c.app_name, "NavHub");
    assert_eq!(c.host, "0.0.0.0");
    assert_eq!(c.port, 8100);
    assert!(!c.debug);
    assert_eq!(c.secret_key, "");
    assert_eq!(c.token_expire_minutes, 1440);
    assert_eq!(c.cors_origins, "*");
    assert_eq!(c.login_max_failures, 5);
    assert_eq!(c.login_lock_minutes, 15);
    assert_eq!(c.upload_max_mb, 2);
    assert_eq!(c.admin_username, "admin");
    assert_eq!(c.admin_password, "admin123");
    assert_eq!(c.base_dir, "/srv/navhub");
    assert_eq!(c.data_dir, "/srv/navhub/database");
    assert_eq!(c.database_path, "/srv/navhub/database/nav.db");
    assert_eq!(c.uploads_dir, "/srv/navhub/database/uploads");
    assert_eq!(c.frontend_dist, "/srv/navhub/frontend/dist");
}

#[test]
fn config_from_values() {
    let mut e = env();
    e.app_name = Some("我的导航".to_string());
    e.port = Some("+9000".to_string());
    e.debug = Some("Yes".to_string());
    e.token_expire_minutes = Some("-5".to_string());
    e.login_max_failures = Some("3".to_string());
    e.login_lock_minutes = Some("abc".to_string());
    e.upload_max_mb = Some("-1".to_string());
    e.data_dir = Some("/data".to_string());
    let c = Config::from_env("/b".to_string(), &e);
    assert_eq!(c.app_name, "我的导航");
    assert_eq!(c.port, 9000);
    assert!(c.debug);
    assert_eq!(c.token_expire_minutes, -5);
    assert_eq!(c.login_max_failures, 3);
    assert_eq!(c.login_lock_minutes, 15);
    assert_eq!(c.upload_max_mb, 2);
    assert_eq!(c.data_dir, "/data");
    assert_eq!(c.database_path, "/data/nav.db");
    let mut e = env();
    e.port = Some("70000".to_string());
    e.debug = Some("nope".to_string());
    let c = Config::from_env("/b".to_string(), &e);
    assert_eq!(c.port, 8100);
    assert!(!c.debug);
}

#[test]
fn env_values_first_nonblank() {
    assert_eq!(env_value(vec![None, Some("  ".to_string()), Some(" v ".to_string())]), Some(" v ".to_string()));
    assert_eq!(env_value(vec![Some("a".to_string()), Some("b".to_string())]), Some("a".to_string()));
    assert_eq!(env_value(vec![None, Some("\t".to_string())]), None);
    assert_eq!(env_value(vec![]), None);
}

#[test]
fn env_flags() {
    for t in ["1", "true", "TRUE", "Yes", "on", "y", "T"] {
        assert_eq!(env_bool(Some(t)), Some(true), "{t}");
    }
    for f in ["0", "false", "off", " true", "2"] {
        assert_eq!(env_bool(Some(f)), Some(false), "{f}");
    }
    assert_eq!(env_bool(None), None);
}

#[test]
fn secret_choice() {
    assert_eq!(choose_secret(Some(" env ".to_string()), Some("file".to_string())), Some(" env ".to_string()));
    assert_eq!(choose_secret(None, Some("  file-key\n".to_string())), Some("file-key".to_string()));
    assert_eq!(choose_secret(None, Some(" \n".to_string())), None);
    assert_eq!(choose_secret(None, None), None);
}

#[test]
fn base64url_vectors() {
    assert_eq!(encode_base64url(&b"".to_vec()), "");
    assert_eq!(encode_base64url(&b"f".to_vec()), "Zg");
    assert_eq!(encode_base64url(&b"fo".to_vec()), "Zm8");
    assert_eq!(encode_base64url(&b"foo".to_vec()), "Zm9v");
    assert_eq!(encode_base64url(&b"foobar".to_vec()), "Zm9vYmFy");
    assert_eq!(encode_base64url(&vec![0xfb, 0xff, 0xbf]), "-_-_");
}

#[test]
fn generated_secrets() {
    let a = generate_secret();
    let b = generate_secret();
    assert_eq!(a.len(), 64);
    assert!(a.chars().all(|c| c.is_ascii_alphanumeric() || c == '-' || c == '_'));
    assert_ne!(a, b);
}

#[test]
fn secret_filled_in_and_persisted() {
    let mut c = Config::from_env("/b".to_string(), &env());
    assert!(c.set_secret(None, None));
    assert_eq!(c.secret_key.len(), 64);
    let saved = c.secret_key.clone();
    // a restart reads the saved file back (with a trailing newline) and keeps it
    let mut again = Config::from_env("/b".to_string(), &env());
    assert!(!again.set_secret(None, Some(format!("{saved}\n"))));
    assert_eq!(again.secret_key, saved);
    // the environment wins over the file; a secret already set is kept
    let mut e = Config::from_env("/b".to_string(), &env());
    assert!(!e.set_secret(Some("from-env".to_string()), Some("file".to_string())));
    assert_eq!(e.secret_key, "from-env");
    assert!(!e.set_secret(Some("other".to_string()), None));
    assert_eq!(e.secret_key, "from-env");
}
