//! Configuration: the settings the service runs with, and how they are read
//! from environment values (defaults, integer and flag parsing, the JWT secret).
use vstd::prelude::*;
use crate::text::{is_white, trim_end, trim_start, ascii_lower, ascii_lower_eq, parse_i64, parse_i64_str, parse_unsigned, parse_unsigned_str, push_char, trim, trim_str};

verus! {

/// The text of `Path::new(base).join(segment)`: `segment` when it is an
/// absolute path, else `base` and `segment` with one separator of the
/// target between them. It depends on its arguments alone (and on the
/// target the crate is built for, which fixes the separator).
pub uninterp spec fn path_joined(base: Seq<char>, segment: Seq<char>) -> Seq<char>;

/// `Path::join`, as text. Joining two UTF-8 paths gives a UTF-8 path, so
/// `to_string_lossy` changes nothing.
#[verifier::external_body]
fn path_join(base: &str, segment: &str) -> (r: String)
    ensures
        r@ == path_joined(base@, segment@),
{
    std::path::Path::new(base).join(segment).to_string_lossy().into_owned()
}

/// The service's settings.
#[derive(Debug)]
pub struct Config {
    pub base_dir: String,
    pub app_name: String,
    pub host: String,
    pub port: u16,
    pub debug: bool,
    pub secret_key: String,
    pub token_expire_minutes: i64,
    pub cors_origins: String,
    pub login_max_failures: usize,
    pub login_lock_minutes: i64,
    pub data_dir: String,
    pub upload_max_mb: usize,
    pub admin_username: String,
    pub admin_password: String,
    pub database_path: String,
    pub uploads_dir: String,
    pub frontend_dist: String,
}

pub open spec fn opt_view(o: Option<String>) -> Option<Seq<char>> {
    match o {
        Some(s) => Some(s@),
        None => None,
    }
}

/// Of the readings of one setting under its spellings (as given, lower
/// case, upper case), the first one that is not blank once trimmed.
pub open spec fn env_reading(readings: Seq<Option<Seq<char>>>) -> Option<Seq<char>>
    decreases readings.len(),
{
    if readings.len() == 0 {
        None
    } else if readings[0] is Some && trim(readings[0]->0).len() > 0 {
        readings[0]
    } else {
        env_reading(readings.drop_first())
    }
}

/// The value of a setting from its readings: the first that is not blank.
pub fn env_value(readings: Vec<Option<String>>) -> (r: Option<String>)
    ensures
        opt_view(r) == env_reading(readings@.map_values(|o: Option<String>| opt_view(o))),
{
    let ghost all = readings@.map_values(|o: Option<String>| opt_view(o));
    let mut i: usize = 0;
    let n = readings.len();
    assert(all.skip(0) =~= all);
    while i < n
        invariant
            n == readings@.len(),
            i <= n,
            all == readings@.map_values(|o: Option<String>| opt_view(o)),
            all.len() == n,
            forall|j: int| 0 <= j < n ==> #[trigger] all[j] == opt_view(readings@[j]),
            env_reading(all) == env_reading(all.skip(i as int)),
        decreases n - i,
    {
        assert(all.skip(i as int).drop_first() =~= all.skip(i + 1));
        assert(all.skip(i as int)[0] == all[i as int]);
        match &readings[i] {
            Some(v) => {
                let t = trim_str(v.as_str());
                if t.as_str().unicode_len() > 0 {
                    assert(all.skip(i as int)[0] == Some(v@));
                    return Some(v.clone());
                }
            },
            None => {},
        }
        i = i + 1;
    }
    assert(all.skip(i as int) =~= Seq::<Option<Seq<char>>>::empty());
    None
}

/// The words a flag setting counts as true (after lower-casing).
pub open spec fn flag_word(s: Seq<char>) -> bool {
    s == "1"@ || s == "true"@ || s == "yes"@ || s == "on"@ || s == "y"@ || s == "t"@
}

/// A flag setting: absent, or true exactly when it is one of the flag words
/// in any case. Every flag word is ASCII and no character outside ASCII
/// lower-cases to an ASCII letter of them, so ASCII lower-casing decides
/// this as full lower-casing does.
pub open spec fn env_flag(v: Option<Seq<char>>) -> Option<bool> {
    match v {
        Some(s) => Some(flag_word(ascii_lower(s))),
        None => None,
    }
}

/// A flag setting's value.
pub fn env_bool(v: Option<&str>) -> (r: Option<bool>)
    ensures
        r == env_flag(match v { Some(s) => Some(s@), None => None::<Seq<char>> }),
{
    match v {
        Some(s) => {
            let b = ascii_lower_eq(s, "1") || ascii_lower_eq(s, "true") || ascii_lower_eq(s, "yes")
                || ascii_lower_eq(s, "on") || ascii_lower_eq(s, "y") || ascii_lower_eq(s, "t");
            Some(b)
        },
        None => None,
    }
}

/// The settings as read from the environment (each already the first
/// non-blank reading, `None` when there is none).
#[derive(Debug)]
pub struct EnvValues {
    pub app_name: Option<String>,
    pub host: Option<String>,
    pub port: Option<String>,
    pub debug: Option<String>,
    pub token_expire_minutes: Option<String>,
    pub cors_origins: Option<String>,
    pub login_max_failures: Option<String>,
    pub login_lock_minutes: Option<String>,
    pub data_dir: Option<String>,
    pub upload_max_mb: Option<String>,
    pub admin_username: Option<String>,
    pub admin_password: Option<String>,
}

/// A text setting, or its default.
pub open spec fn text_or(v: Option<String>, default: Seq<char>) -> Seq<char> {
    match v {
        Some(s) => s@,
        None => default,
    }
}

/// A signed integer setting, or its default when absent or not an `i64`.
pub open spec fn i64_or(v: Option<String>, default: i64) -> i64 {
    match v {
        Some(s) => match parse_i64(s@) {
            Some(x) => x,
            None => default,
        },
        None => default,
    }
}

/// An unsigned integer setting of largest value `max`, or its default when
/// absent or not such a number.
pub open spec fn unsigned_or(v: Option<String>, max: int, default: int) -> int {
    match v {
        Some(s) => match parse_unsigned(s@, max) {
            Some(x) => x,
            None => default,
        },
        None => default,
    }
}

fn text_setting(v: &Option<String>, default: &str) -> (r: String)
    ensures
        r@ == text_or(*v, default@),
{
    match v {
        Some(s) => s.clone(),
        None => String::from_str(default),
    }
}

fn i64_setting(v: &Option<String>, default: i64) -> (r: i64)
    ensures
        r == i64_or(*v, default),
{
    match v {
        Some(s) => match parse_i64_str(s.as_str()) {
            Some(x) => x,
            None => default,
        },
        None => default,
    }
}

fn unsigned_setting(v: &Option<String>, max: u64, default: u64) -> (r: u64)
    requires
        max >= 9,
        default <= max,
    ensures
        r as int == unsigned_or(*v, max as int, default as int),
        r <= max,
{
    match v {
        Some(s) => match parse_unsigned_str(s.as_str(), max) {
            Some(x) => x,
            None => default,
        },
        None => default,
    }
}

/// The data directory: `DATA_DIR` as given, else `database` under `base`.
pub open spec fn data_dir_of(base: Seq<char>, data_dir: Option<String>) -> Seq<char> {
    match data_dir {
        Some(d) => d@,
        None => path_joined(base, "database"@),
    }
}

impl Config {
    /// The settings from environment values over the defaults: `NavHub` on
    /// `0.0.0.0:8100`, not in debug mode, tokens valid for 1440 minutes,
    /// every CORS origin, a lockout after 5 failures for 15 minutes, uploads
    /// of at most 2 MB, the administrator `admin` / `admin123`. Numbers that
    /// do not parse fall back to their defaults. The secret is left empty,
    /// to be read or generated next; the data directory is `DATA_DIR` or
    /// `database` under `base`, holding `nav.db` and `uploads`; the front
    /// end is `frontend/dist` under `base`.
    pub fn from_env(base: String, env: &EnvValues) -> (r: Config)
        ensures
            r.base_dir@ == base@,
            r.data_dir@ == data_dir_of(base@, env.data_dir),
            r.database_path@ == path_joined(r.data_dir@, "nav.db"@),
            r.uploads_dir@ == path_joined(r.data_dir@, "uploads"@),
            r.frontend_dist@ == path_joined(path_joined(base@, "frontend"@), "dist"@),
            r.app_name@ == text_or(env.app_name, "NavHub"@),
            r.host@ == text_or(env.host, "0.0.0.0"@),
            r.port as int == unsigned_or(env.port, 65535, 8100),
            r.debug == match env_flag(opt_view(env.debug)) { Some(b) => b, None => false },
            r.secret_key@ == Seq::<char>::empty(),
            r.token_expire_minutes == i64_or(env.token_expire_minutes, 1440),
            r.cors_origins@ == text_or(env.cors_origins, "*"@),
            r.login_max_failures as int == unsigned_or(env.login_max_failures, usize::MAX as int, 5),
            r.login_lock_minutes == i64_or(env.login_lock_minutes, 15),
            r.upload_max_mb as int == unsigned_or(env.upload_max_mb, usize::MAX as int, 2),
            r.admin_username@ == text_or(env.admin_username, "admin"@),
            r.admin_password@ == text_or(env.admin_password, "admin123"@),
    {
        let data_dir = match &env.data_dir {
            Some(d) => d.clone(),
            None => path_join(base.as_str(), "database"),
        };
        let debug = match &env.debug {
            Some(v) => match env_bool(Some(v.as_str())) {
                Some(b) => b,
                None => false,
            },
            None => false,
        };
        let port = unsigned_setting(&env.port, 65535, 8100) as u16;
        let max_failures = unsigned_setting(&env.login_max_failures, usize::MAX as u64, 5) as usize;
        let upload_max_mb = unsigned_setting(&env.upload_max_mb, usize::MAX as u64, 2) as usize;
        let database_path = path_join(data_dir.as_str(), "nav.db");
        let uploads_dir = path_join(data_dir.as_str(), "uploads");
        let frontend = path_join(base.as_str(), "frontend");
        let frontend_dist = path_join(frontend.as_str(), "dist");
        Config {
            base_dir: base,
            app_name: text_setting(&env.app_name, "NavHub"),
            host: text_setting(&env.host, "0.0.0.0"),
            port,
            debug,
            secret_key: String::new(),
            token_expire_minutes: i64_setting(&env.token_expire_minutes, 1440),
            cors_origins: text_setting(&env.cors_origins, "*"),
            login_max_failures: max_failures,
            login_lock_minutes: i64_setting(&env.login_lock_minutes, 15),
            data_dir,
            upload_max_mb,
            admin_username: text_setting(&env.admin_username, "admin"),
            admin_password: text_setting(&env.admin_password, "admin123"),
            database_path,
            uploads_dir,
            frontend_dist,
        }
    }
}

// ---------- the JWT secret ----------

/// The secret to sign tokens with, if one exists already: `SECRET_KEY` from
/// the environment as it is, else the trimmed content of the secret file
/// when that is not empty; `None` means a new one is to be generated.
pub open spec fn stored_secret(env: Option<Seq<char>>, file: Option<Seq<char>>) -> Option<Seq<char>> {
    match env {
        Some(k) => Some(k),
        None => match file {
            Some(f) => if trim(f).len() > 0 { Some(trim(f)) } else { None },
            None => None,
        },
    }
}

/// The existing secret, from the environment's `SECRET_KEY` or the secret
/// file's content.
pub fn choose_secret(env: Option<String>, file: Option<String>) -> (r: Option<String>)
    ensures
        opt_view(r) == stored_secret(opt_view(env), opt_view(file)),
{
    match env {
        Some(k) => Some(k),
        None => match file {
            Some(f) => {
                let t = trim_str(f.as_str());
                if t.as_str().unicode_len() > 0 { Some(t) } else { None }
            },
            None => None,
        },
    }
}

/// The character of a 6-bit value in the URL-safe base64 alphabet
/// `A-Z a-z 0-9 - _`.
pub open spec fn b64_char(v: int) -> char {
    if v < 26 {
        ((65 + v) as u8) as char
    } else if v < 52 {
        ((97 + (v - 26)) as u8) as char
    } else if v < 62 {
        ((48 + (v - 52)) as u8) as char
    } else if v == 62 {
        '-'
    } else {
        '_'
    }
}

/// The base64 characters of a group of one to three bytes, without padding:
/// the 24-bit number of the group (missing bytes zero), six bits at a time,
/// two characters for one byte, three for two, four for three.
pub open spec fn b64_group(b: Seq<u8>) -> Seq<char> {
    let b1: int = if b.len() > 1 { b[1] as int } else { 0 };
    let b2: int = if b.len() > 2 { b[2] as int } else { 0 };
    let n: int = b[0] as int * 65536 + b1 * 256 + b2;
    seq![b64_char(n / 262144 % 64), b64_char(n / 4096 % 64)]
        + (if b.len() > 1 { seq![b64_char(n / 64 % 64)] } else { Seq::empty() })
        + (if b.len() > 2 { seq![b64_char(n % 64)] } else { Seq::empty() })
}

/// URL-safe base64 without padding.
pub open spec fn base64url(b: Seq<u8>) -> Seq<char>
    decreases b.len(),
{
    if b.len() == 0 {
        Seq::empty()
    } else if b.len() <= 3 {
        b64_group(b)
    } else {
        b64_group(b.take(3)) + base64url(b.skip(3))
    }
}

fn b64_char_of(v: u32) -> (c: char)
    requires
        v < 64,
    ensures
        c == b64_char(v as int),
{
    if v < 26 {
        (65u8 + v as u8) as char
    } else if v < 52 {
        (97u8 + (v - 26) as u8) as char
    } else if v < 62 {
        (48u8 + (v - 52) as u8) as char
    } else if v == 62 {
        '-'
    } else {
        '_'
    }
}

fn push_group(out: &mut String, bytes: &Vec<u8>, i: usize, k: usize)
    requires
        1 <= k <= 3,
        i + k <= bytes@.len(),
    ensures
        final(out)@ == old(out)@ + b64_group(bytes@.subrange(i as int, i + k)),
{
    let ghost g = bytes@.subrange(i as int, i + k);
    let n_bytes = bytes.len();
    assert(i + k <= n_bytes);
    let b0: u32 = bytes[i] as u32;
    let b1: u32 = if k > 1 { bytes[i + 1] as u32 } else { 0 };
    let b2: u32 = if k > 2 { bytes[i + 2] as u32 } else { 0 };
    let n: u32 = b0 * 65536 + b1 * 256 + b2;
    assert(n as int == g[0] as int * 65536 + (if g.len() > 1 { g[1] as int } else { 0 }) * 256
        + (if g.len() > 2 { g[2] as int } else { 0 }));
    push_char(out, b64_char_of(n / 262144 % 64));
    push_char(out, b64_char_of(n / 4096 % 64));
    if k > 1 {
        push_char(out, b64_char_of(n / 64 % 64));
    }
    if k > 2 {
        push_char(out, b64_char_of(n % 64));
    }
    assert(out@ =~= old(out)@ + b64_group(g));
}

/// URL-safe base64 of `bytes`, without padding.
pub fn encode_base64url(bytes: &Vec<u8>) -> (r: String)
    ensures
        r@ == base64url(bytes@),
{
    let mut out = String::new();
    let mut i: usize = 0;
    let n = bytes.len();
    assert(bytes@.skip(0) =~= bytes@);
    while i < n
        invariant
            n == bytes@.len(),
            i <= n,
            out@ + base64url(bytes@.skip(i as int)) == base64url(bytes@),
        decreases n - i,
    {
        let ghost rest = bytes@.skip(i as int);
        let ghost before = out@;
        let k: usize = if n - i >= 3 { 3 } else { n - i };
        push_group(&mut out, bytes, i, k);
        proof {
            if rest.len() <= 3 {
                assert(bytes@.subrange(i as int, i + k) =~= rest);
                assert(bytes@.skip(i + k) =~= Seq::<u8>::empty());
            } else {
                assert(bytes@.subrange(i as int, i + k) =~= rest.take(3));
                assert(bytes@.skip(i + k) =~= rest.skip(3));
            }
            assert(out@ + base64url(bytes@.skip(i + k)) =~= before + base64url(rest));
        }
        i = i + k;
    }
    assert(bytes@.skip(i as int) =~= Seq::<u8>::empty());
    assert(out@ + Seq::<char>::empty() =~= out@);
    out
}

/// Four characters for every three bytes.
pub proof fn lemma_base64url_len(b: Seq<u8>)
    requires
        b.len() % 3 == 0,
    ensures
        base64url(b).len() == b.len() / 3 * 4,
    decreases b.len(),
{
    if b.len() > 3 {
        lemma_base64url_len(b.skip(3));
    }
}

/// `RngCore::fill_bytes` of the thread's generator on `n` zeroed bytes: `n`
/// random bytes. `thread_rng` panics only when the system cannot seed it.
#[verifier::external_body]
fn random_bytes(n: usize) -> (r: Vec<u8>)
    ensures
        r@.len() == n,
{
    let mut buf = vec![0u8; n];
    rand::RngCore::fill_bytes(&mut rand::thread_rng(), &mut buf);
    buf
}

/// A new secret: 48 random bytes in URL-safe base64, 64 characters.
pub fn generate_secret() -> (r: String)
    ensures
        exists|b: Seq<u8>| b.len() == 48 && r@ == base64url(b),
        r@.len() == 64,
        forall|i: int| 0 <= i < r@.len() ==> is_b64_char(#[trigger] r@[i]),
{
    let bytes = random_bytes(48);
    let r = encode_base64url(&bytes);
    proof {
        lemma_base64url_len(bytes@);
        lemma_b64_chars(bytes@);
    }
    r
}

/// Everything but the secret is the same in the two configurations.
pub open spec fn same_but_secret(a: Config, b: Config) -> bool {
    &&& a.base_dir@ == b.base_dir@
    &&& a.app_name@ == b.app_name@
    &&& a.host@ == b.host@
    &&& a.port == b.port
    &&& a.debug == b.debug
    &&& a.token_expire_minutes == b.token_expire_minutes
    &&& a.cors_origins@ == b.cors_origins@
    &&& a.login_max_failures == b.login_max_failures
    &&& a.login_lock_minutes == b.login_lock_minutes
    &&& a.data_dir@ == b.data_dir@
    &&& a.upload_max_mb == b.upload_max_mb
    &&& a.admin_username@ == b.admin_username@
    &&& a.admin_password@ == b.admin_password@
    &&& a.database_path@ == b.database_path@
    &&& a.uploads_dir@ == b.uploads_dir@
    &&& a.frontend_dist@ == b.frontend_dist@
}

impl Config {
    /// Fills in the JWT secret when none is set: `SECRET_KEY` from the
    /// environment, else the secret file's content, else a new secret. The
    /// answer tells whether a new one was generated, to be saved in the
    /// secret file.
    pub fn set_secret(&mut self, env: Option<String>, file: Option<String>) -> (generated: bool)
        ensures
            same_but_secret(*final(self), *old(self)),
            old(self).secret_key@.len() > 0 ==> final(self).secret_key@ == old(self).secret_key@ && !generated,
            old(self).secret_key@.len() == 0 ==> match stored_secret(opt_view(env), opt_view(file)) {
                Some(k) => final(self).secret_key@ == k && !generated,
                None => {
                    &&& generated
                    &&& final(self).secret_key@.len() == 64
                    &&& forall|i: int| 0 <= i < 64 ==> is_b64_char(#[trigger] final(self).secret_key@[i])
                    &&& exists|b: Seq<u8>| b.len() == 48 && final(self).secret_key@ == base64url(b)
                },
            },
    {
        if self.secret_key.as_str().unicode_len() > 0 {
            return false;
        }
        match choose_secret(env, file) {
            Some(k) => {
                self.secret_key = k;
                false
            },
            None => {
                self.secret_key = generate_secret();
                true
            },
        }
    }
}

/// The characters of URL-safe base64.
pub open spec fn is_b64_char(c: char) -> bool {
    ('A' <= c <= 'Z') || ('a' <= c <= 'z') || ('0' <= c <= '9') || c == '-' || c == '_'
}

/// Each 6-bit value has a character of the alphabet.
pub proof fn lemma_b64_char_ok(v: int)
    requires
        0 <= v < 64,
    ensures
        is_b64_char(b64_char(v)),
{
}

/// The characters of one group are in the alphabet.
pub proof fn lemma_b64_group(g: Seq<u8>)
    requires
        1 <= g.len() <= 3,
    ensures
        forall|i: int| 0 <= i < b64_group(g).len() ==> is_b64_char(#[trigger] b64_group(g)[i]),
{
    let b1: int = if g.len() > 1 { g[1] as int } else { 0 };
    let b2: int = if g.len() > 2 { g[2] as int } else { 0 };
    let n: int = g[0] as int * 65536 + b1 * 256 + b2;
    lemma_b64_char_ok(n / 262144 % 64);
    lemma_b64_char_ok(n / 4096 % 64);
    lemma_b64_char_ok(n / 64 % 64);
    lemma_b64_char_ok(n % 64);
}

/// Every character of URL-safe base64 is in its alphabet.
pub proof fn lemma_b64_chars(b: Seq<u8>)
    ensures
        forall|i: int| 0 <= i < base64url(b).len() ==> is_b64_char(#[trigger] base64url(b)[i]),
    decreases b.len(),
{
    if b.len() == 0 {
    } else if b.len() <= 3 {
        lemma_b64_group(b);
    } else {
        lemma_b64_chars(b.skip(3));
        lemma_b64_group(b.take(3));
        let g = b64_group(b.take(3));
        let r = base64url(b.skip(3));
        assert forall|i: int| 0 <= i < base64url(b).len() implies is_b64_char(#[trigger] base64url(b)[i]) by {
            if i < g.len() {
                assert(base64url(b)[i] == g[i]);
            } else {
                assert(base64url(b)[i] == r[i - g.len()]);
            }
        }
    }
}

/// A generated secret survives a restart: saved to the secret file and read
/// back (trimmed), it is chosen again as it was.
pub proof fn lemma_secret_persists(b: Seq<u8>)
    requires
        b.len() > 0,
    ensures
        stored_secret(None, Some(base64url(b))) == Some(base64url(b)),
{
    let s = base64url(b);
    lemma_b64_chars(b);
    assert(s.len() > 0) by {
        if b.len() > 3 {} 
    }
    assert(!is_white(s[0]) && !is_white(s.last())) by {
        assert(is_b64_char(s[0]));
        assert(is_b64_char(s[s.len() - 1]));
    }
    assert(trim_start(s) == s);
    assert(trim_end(s) == s);
}

} // verus!
