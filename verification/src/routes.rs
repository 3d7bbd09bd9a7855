//! Decisions of the HTTP front: static-file paths, SPA fallback, CORS origins.
use vstd::prelude::*;
use vstd::utf8::{decode_utf8, encode_utf8, valid_utf8};
use crate::text::{chars_of, is_white, lemma_trim_ends, split_on, split_str, str_eq, string_of, strings_view, trim, trim_str};

verus! {

/// The value of an ASCII hexadecimal digit.
pub open spec fn hex_value(b: u8) -> Option<u8> {
    if 48 <= b <= 57 {
        Some((b - 48) as u8)
    } else if 97 <= b <= 102 {
        Some((b - 97 + 10) as u8)
    } else if 65 <= b <= 70 {
        Some((b - 65 + 10) as u8)
    } else {
        None
    }
}

fn hex(c: u8) -> (r: Option<u8>)
    ensures
        r == hex_value(c),
{
    if 48 <= c && c <= 57 {
        Some(c - 48)
    } else if 97 <= c && c <= 102 {
        Some(c - 97 + 10)
    } else if 65 <= c && c <= 70 {
        Some(c - 65 + 10)
    } else {
        None
    }
}

/// Percent-decoding of bytes: `%XY` (two hexadecimal digits) is the byte
/// 0xXY; a `%` not followed by two hexadecimal digits makes the whole
/// input undecodable; other bytes stand for themselves.
pub open spec fn percent_decode_bytes(b: Seq<u8>) -> Option<Seq<u8>>
    decreases b.len(),
{
    if b.len() == 0 {
        Some(Seq::empty())
    } else if b[0] == 37 {
        if b.len() >= 3 && hex_value(b[1]) is Some && hex_value(b[2]) is Some {
            match percent_decode_bytes(b.skip(3)) {
                Some(r) => Some(seq![(hex_value(b[1])->0 * 16 + hex_value(b[2])->0) as u8] + r),
                None => None,
            }
        } else {
            None
        }
    } else {
        match percent_decode_bytes(b.skip(1)) {
            Some(r) => Some(seq![b[0]] + r),
            None => None,
        }
    }
}

/// The percent-decoding of a path as text: `None` when a `%` is malformed or
/// the decoded bytes are not UTF-8.
pub open spec fn percent_decode_spec(s: Seq<char>) -> Option<Seq<char>> {
    match percent_decode_bytes(encode_utf8(s)) {
        Some(b) => if valid_utf8(b) { Some(decode_utf8(b)) } else { None },
        None => None,
    }
}

pub open spec fn prepend(p: Seq<u8>, o: Option<Seq<u8>>) -> Option<Seq<u8>> {
    match o {
        Some(r) => Some(p + r),
        None => None,
    }
}

/// `String::from_utf8(bytes).ok()`: `Some` exactly when the bytes are valid
/// UTF-8, and then the characters they encode.
#[verifier::external_body]
fn string_from_utf8(bytes: Vec<u8>) -> (r: Option<String>)
    ensures
        r is Some <==> valid_utf8(bytes@),
        r matches Some(s) ==> s@ == decode_utf8(bytes@),
{
    String::from_utf8(bytes).ok()
}

/// Percent-decodes a URL path (for locating static files).
pub fn percent_decode(s: &str) -> (r: Option<String>)
    ensures
        match r {
            Some(t) => percent_decode_spec(s@) == Some(t@),
            None => percent_decode_spec(s@) is None,
        },
{
    let bytes = s.as_bytes();
    let ghost b = bytes@;
    assert(b == encode_utf8(s@));
    let mut out: Vec<u8> = Vec::new();
    let mut i: usize = 0;
    assert(b.skip(0) =~= b);
    assert(out@ + Seq::<u8>::empty() =~= out@);
    while i < bytes.len()
        invariant
            b == bytes@,
            b == encode_utf8(s@),
            i <= b.len(),
            percent_decode_bytes(b) == prepend(out@, percent_decode_bytes(b.skip(i as int))),
        decreases b.len() - i,
    {
        let ghost rest = b.skip(i as int);
        assert(rest[0] == b[i as int]);
        if bytes[i] == 37 {
            if bytes.len() - i < 3 {
                assert(rest.len() < 3);
                assert(percent_decode_bytes(rest) is None);
                assert(percent_decode_bytes(encode_utf8(s@)) is None);
                return None;
            }
            assert(rest[1] == b[i + 1] && rest[2] == b[i + 2]);
            let hi = match hex(bytes[i + 1]) {
                Some(h) => h,
                None => {
                    assert(percent_decode_bytes(rest) is None);
                    assert(percent_decode_bytes(encode_utf8(s@)) is None);
                    return None;
                },
            };
            let lo = match hex(bytes[i + 2]) {
                Some(l) => l,
                None => return None,
            };
            assert(rest.skip(3) =~= b.skip(i + 3));
            let ghost before = out@;
            out.push(hi * 16 + lo);
            assert(before + (seq![(hi * 16 + lo) as u8] + Seq::<u8>::empty()) =~= out@ + Seq::<u8>::empty());
            proof {
                match percent_decode_bytes(b.skip(i + 3)) {
                    Some(r2) => {
                        assert(before + (seq![(hi * 16 + lo) as u8] + r2) =~= out@ + r2);
                    },
                    None => {},
                }
            }
            i = i + 3;
        } else {
            assert(rest.skip(1) =~= b.skip(i + 1));
            let ghost before = out@;
            out.push(bytes[i]);
            proof {
                match percent_decode_bytes(b.skip(i + 1)) {
                    Some(r2) => {
                        assert(before + (seq![b[i as int]] + r2) =~= out@ + r2);
                    },
                    None => {},
                }
            }
            i = i + 1;
        }
    }
    assert(b.skip(i as int) =~= Seq::<u8>::empty());
    assert(out@ + Seq::<u8>::empty() =~= out@);
    string_from_utf8(out)
}

/// Percent-decoding leaves a path without `%` as it is.
pub proof fn lemma_percent_decode_plain(s: Seq<char>)
    requires
        forall|i: int| 0 <= i < encode_utf8(s).len() ==> #[trigger] encode_utf8(s)[i] != 37,
    ensures
        percent_decode_spec(s) == Some(s),
{
    lemma_plain_bytes(encode_utf8(s));
    vstd::utf8::encode_utf8_valid_utf8(s);
    vstd::utf8::encode_utf8_decode_utf8(s);
}

proof fn lemma_plain_bytes(b: Seq<u8>)
    requires
        forall|i: int| 0 <= i < b.len() ==> #[trigger] b[i] != 37,
    ensures
        percent_decode_bytes(b) == Some(b),
    decreases b.len(),
{
    if b.len() > 0 {
        assert(b[0] != 37);
        let t = b.skip(1);
        assert forall|i: int| 0 <= i < t.len() implies #[trigger] t[i] != 37 by {
            assert(t[i] == b[i + 1]);
        }
        lemma_plain_bytes(t);
        assert(seq![b[0]] + t =~= b);
    }
}

/// The upper-case hexadecimal digit (as an ASCII byte) of a value below 16.
pub open spec fn hex_digit(v: int) -> u8 {
    if v < 10 { (48 + v) as u8 } else { (55 + v) as u8 }
}

/// Percent-encoding of every byte: `%` and two upper-case hexadecimal digits.
pub open spec fn percent_encode_bytes(b: Seq<u8>) -> Seq<u8>
    decreases b.len(),
{
    if b.len() == 0 {
        Seq::empty()
    } else {
        seq![37u8, hex_digit(b[0] as int / 16), hex_digit(b[0] as int % 16)] + percent_encode_bytes(b.skip(1))
    }
}

/// Percent-decoding undoes percent-encoding: the bytes come back as they were.
pub proof fn lemma_percent_round_trip(b: Seq<u8>)
    ensures
        percent_decode_bytes(percent_encode_bytes(b)) == Some(b),
    decreases b.len(),
{
    if b.len() > 0 {
        let e = percent_encode_bytes(b);
        let hi = b[0] as int / 16;
        let lo = b[0] as int % 16;
        assert(hex_value(hex_digit(hi)) == Some(hi as u8));
        assert(hex_value(hex_digit(lo)) == Some(lo as u8));
        assert(e.skip(3) =~= percent_encode_bytes(b.skip(1)));
        lemma_percent_round_trip(b.skip(1));
        assert((hi * 16 + lo) as u8 == b[0]);
        assert(seq![b[0]] + b.skip(1) =~= b);
    } else {
        assert(percent_encode_bytes(b) =~= Seq::<u8>::empty());
    }
}

/// `e` percent-encodes every byte of `b`: each byte is `%` and two
/// hexadecimal digits of its value, each digit in either case.
pub open spec fn encodes(e: Seq<u8>, b: Seq<u8>) -> bool
    decreases b.len(),
{
    if b.len() == 0 {
        e.len() == 0
    } else {
        &&& e.len() >= 3
        &&& e[0] == 37
        &&& hex_value(e[1]) is Some
        &&& hex_value(e[2]) is Some
        &&& hex_value(e[1])->0 * 16 + hex_value(e[2])->0 == b[0]
        &&& encodes(e.skip(3), b.skip(1))
    }
}

/// Percent-decoding undoes any percent-encoding of every byte, whatever the
/// case of its hexadecimal digits.
pub proof fn lemma_percent_decodes_encoding(e: Seq<u8>, b: Seq<u8>)
    requires
        encodes(e, b),
    ensures
        percent_decode_bytes(e) == Some(b),
    decreases b.len(),
{
    if b.len() > 0 {
        lemma_percent_decodes_encoding(e.skip(3), b.skip(1));
        assert(seq![b[0]] + b.skip(1) =~= b);
    } else {
        assert(e =~= Seq::<u8>::empty());
    }
}

/// The same on text: a path whose bytes percent-encode the bytes of `t`
/// decodes to `t`.
pub proof fn lemma_percent_decodes_text(s: Seq<char>, t: Seq<char>)
    requires
        encodes(encode_utf8(s), encode_utf8(t)),
    ensures
        percent_decode_spec(s) == Some(t),
{
    lemma_percent_decodes_encoding(encode_utf8(s), encode_utf8(t));
    vstd::utf8::encode_utf8_valid_utf8(t);
    vstd::utf8::encode_utf8_decode_utf8(t);
}

/// Upper-case percent-encoding is such an encoding.
pub proof fn lemma_upper_encoding(b: Seq<u8>)
    ensures
        encodes(percent_encode_bytes(b), b),
    decreases b.len(),
{
    if b.len() > 0 {
        let e = percent_encode_bytes(b);
        let hi = b[0] as int / 16;
        let lo = b[0] as int % 16;
        assert(hex_value(hex_digit(hi)) == Some(hi as u8));
        assert(hex_value(hex_digit(lo)) == Some(lo as u8));
        assert(e.skip(3) =~= percent_encode_bytes(b.skip(1)));
        lemma_upper_encoding(b.skip(1));
    } else {
        assert(percent_encode_bytes(b) =~= Seq::<u8>::empty());
    }
}

/// `s` without its leading `/` characters (`trim_start_matches('/')`).
pub open spec fn strip_slashes(s: Seq<char>) -> Seq<char>
    decreases s.len(),
{
    if s.len() > 0 && s[0] == '/' {
        strip_slashes(s.drop_first())
    } else {
        s
    }
}

pub open spec fn starts_with(s: Seq<char>, p: Seq<char>) -> bool {
    p.len() <= s.len() && s.take(p.len() as int) == p
}

/// Where a GET of a path that no route serves goes, once the front end is built.
#[derive(Debug)]
pub enum SpaRoute {
    /// An unknown API path: 404 `{"detail": "接口不存在"}`.
    ApiNotFound,
    /// A file of the front end to try (the decoded path relative to its
    /// directory), else `index.html`; `None`: `index.html` straight away.
    File(Option<String>),
}

pub open spec fn spa_route_spec(path: Seq<char>) -> Option<Option<Seq<char>>> {
    let rel = strip_slashes(path);
    if starts_with(rel, "api/"@) {
        None
    } else if rel.len() == 0 {
        Some(None)
    } else {
        Some(percent_decode_spec(rel))
    }
}

/// The fallback route of the single-page front end: unknown `/api/...` paths
/// are 404; any other path names a file to try after percent-decoding.
pub fn spa_route(path: &str) -> (r: SpaRoute)
    ensures
        match r {
            SpaRoute::ApiNotFound => spa_route_spec(path@) is None,
            SpaRoute::File(f) => spa_route_spec(path@) == Some(match f { Some(t) => Some(t@), None => None::<Seq<char>> }),
        },
{
    let v = chars_of(path);
    let mut a: usize = 0;
    assert(v@.skip(0) =~= v@);
    while a < v.len() && v[a] == '/'
        invariant
            v@ == path@,
            a <= v@.len(),
            strip_slashes(path@) == strip_slashes(v@.skip(a as int)),
        decreases v@.len() - a,
    {
        assert(v@.skip(a as int).drop_first() =~= v@.skip(a + 1));
        a = a + 1;
    }
    let rel = string_of(&v, a, v.len());
    assert(rel@ =~= v@.skip(a as int));
    assert(strip_slashes(path@) == rel@);
    let n = v.len() - a;
    proof { reveal_strlit("api/"); }
    if n >= 4 {
        let head = string_of(&v, a, a + 4);
        assert(head@ =~= rel@.take(4));
        if str_eq(head.as_str(), "api/") {
            return SpaRoute::ApiNotFound;
        }
    }
    if n == 0 {
        return SpaRoute::File(None);
    }
    SpaRoute::File(percent_decode(rel.as_str()))
}

/// The CORS origins: `None` for `*` (every origin, mirrored), else the
/// comma-separated list, each trimmed, empty entries dropped.
pub open spec fn cors_origins_spec(s: Seq<char>) -> Option<Seq<Seq<char>>> {
    if trim(s) == "*"@ {
        None
    } else {
        Some(split_on(s, ',').map_values(|p: Seq<char>| trim(p)).filter(|p: Seq<char>| p.len() > 0))
    }
}

/// The allowed CORS origins of a `CORS_ORIGINS` setting.
pub fn cors_origins(s: &str) -> (r: Option<Vec<String>>)
    ensures
        match r {
            Some(v) => cors_origins_spec(s@) == Some(strings_view(v@)),
            None => cors_origins_spec(s@) is None,
        },
{
    let t = trim_str(s);
    if str_eq(t.as_str(), "*") {
        return None;
    }
    let pieces = split_str(s, ',');
    let ghost trimmed = strings_view(pieces@).map_values(|p: Seq<char>| trim(p));
    let ghost keep = |p: Seq<char>| p.len() > 0;
    let mut out: Vec<String> = Vec::new();
    let mut i: usize = 0;
    assert(strings_view(out@) =~= trimmed.take(0).filter(keep));
    while i < pieces.len()
        invariant
            i <= pieces@.len(),
            trimmed == strings_view(pieces@).map_values(|p: Seq<char>| trim(p)),
            keep == (|p: Seq<char>| p.len() > 0),
            strings_view(out@) == trimmed.take(i as int).filter(keep),
        decreases pieces@.len() - i,
    {
        let p = trim_str(pieces[i].as_str());
        proof {
            reveal_with_fuel(Seq::filter, 1);
            assert(trimmed.take(i + 1).drop_last() =~= trimmed.take(i as int));
            assert(trimmed[i as int] == p@);
        }
        if p.as_str().unicode_len() > 0 {
            let ghost before = out@;
            out.push(p);
            assert(strings_view(out@) =~= strings_view(before).push(p@));
        }
        i = i + 1;
    }
    assert(trimmed.take(i as int) =~= trimmed);
    Some(out)
}

/// Every allowed origin is a comma-separated piece of the setting with its
/// leading and trailing white space taken off: it is not empty and neither
/// starts nor ends with white space; and every piece that is not blank is
/// allowed, trimmed; where no piece is blank, the list is the pieces
/// trimmed, one for one and in order. The setting `*`, with any white space
/// around it, allows every origin.
pub proof fn lemma_cors_entries(s: Seq<char>)
    ensures
        cors_origins_spec(s) is None <==> trim(s) == "*"@,
        cors_origins_spec(s) matches Some(list) ==> {
            &&& forall|i: int| 0 <= i < list.len() ==> {
                &&& (#[trigger] list[i]).len() > 0
                &&& !is_white(list[i][0])
                &&& !is_white(list[i].last())
                &&& exists|j: int| 0 <= j < split_on(s, ',').len() && list[i] == trim(#[trigger] split_on(s, ',')[j])
            }
            &&& forall|j: int| 0 <= j < split_on(s, ',').len() && trim(#[trigger] split_on(s, ',')[j]).len() > 0
                ==> list.contains(trim(split_on(s, ',')[j]))
            &&& (forall|j: int| 0 <= j < split_on(s, ',').len() ==> trim(#[trigger] split_on(s, ',')[j]).len() > 0)
                ==> list.len() == split_on(s, ',').len()
                && forall|j: int| 0 <= j < list.len() ==> #[trigger] list[j] == trim(split_on(s, ',')[j])
        },
{
    broadcast use vstd::seq_lib::group_filter_ensures;
    if let Some(list) = cors_origins_spec(s) {
        let pieces = split_on(s, ',');
        let m = pieces.map_values(|p: Seq<char>| trim(p));
        let keep = |p: Seq<char>| p.len() > 0;
        assert(list == m.filter(keep));
        assert forall|i: int| 0 <= i < list.len() implies {
            &&& (#[trigger] list[i]).len() > 0
            &&& !is_white(list[i][0])
            &&& !is_white(list[i].last())
            &&& exists|j: int| 0 <= j < split_on(s, ',').len() && list[i] == trim(#[trigger] split_on(s, ',')[j])
        } by {
            assert(keep(list[i]));
            assert(list.contains(list[i]));
            m.lemma_filter_contains_rev(keep, list[i]);
            let k = choose|k: int| 0 <= k < m.len() && m[k] == list[i];
            assert(m[k] == trim(pieces[k]));
            lemma_trim_ends(pieces[k]);
        }
        assert forall|j: int| 0 <= j < split_on(s, ',').len() && trim(#[trigger] split_on(s, ',')[j]).len() > 0
            implies list.contains(trim(split_on(s, ',')[j])) by {
            assert(m[j] == trim(pieces[j]));
            m.lemma_filter_contains(keep, j);
        }
        if forall|j: int| 0 <= j < pieces.len() ==> trim(#[trigger] pieces[j]).len() > 0 {
            lemma_filter_keeps_all(m, keep);
        }
    }
}

proof fn lemma_filter_keeps_all(m: Seq<Seq<char>>, keep: spec_fn(Seq<char>) -> bool)
    requires
        forall|j: int| 0 <= j < m.len() ==> keep(#[trigger] m[j]),
    ensures
        m.filter(keep) == m,
    decreases m.len(),
{
    reveal_with_fuel(Seq::filter, 1);
    if m.len() > 0 {
        assert forall|j: int| 0 <= j < m.drop_last().len() implies keep(#[trigger] m.drop_last()[j]) by {
            assert(m.drop_last()[j] == m[j]);
        }
        lemma_filter_keeps_all(m.drop_last(), keep);
        assert(keep(m[m.len() - 1]));
        assert(m.drop_last().push(m.last()) =~= m);
    }
}

/// The first `key=value` pair of a query string with this key: its value.
/// Pairs without `=` are skipped; values are not decoded.
pub open spec fn query_param_spec(query: Seq<char>, key: Seq<char>) -> Option<Seq<char>> {
    first_value(split_on(query, '&'), key)
}

/// Of `pieces`, the value of the first `key=value` piece with this key.
pub open spec fn first_value(pieces: Seq<Seq<char>>, key: Seq<char>) -> Option<Seq<char>>
    decreases pieces.len(),
{
    if pieces.len() == 0 {
        None
    } else {
        match split_once_eq(pieces[0]) {
            Some((k, v)) => if k == key { Some(v) } else { first_value(pieces.drop_first(), key) },
            None => first_value(pieces.drop_first(), key),
        }
    }
}

/// `str::split_once('=')`: the text before and after the first `=`.
pub open spec fn split_once_eq(p: Seq<char>) -> Option<(Seq<char>, Seq<char>)> {
    if exists|i: int| 0 <= i < p.len() && p[i] == '=' {
        let i = choose|i: int| 0 <= i < p.len() && p[i] == '=' && forall|j: int| 0 <= j < i ==> p[j] != '=';
        Some((p.take(i), p.skip(i + 1)))
    } else {
        None
    }
}

fn split_once(p: &str) -> (r: Option<(String, String)>)
    ensures
        match r {
            Some((k, v)) => split_once_eq(p@) == Some((k@, v@)),
            None => split_once_eq(p@) is None,
        },
{
    let v = chars_of(p);
    let mut i: usize = 0;
    while i < v.len()
        invariant
            v@ == p@,
            i <= v@.len(),
            forall|j: int| 0 <= j < i ==> v@[j] != '=',
        decreases v@.len() - i,
    {
        if v[i] == '=' {
            let k = string_of(&v, 0, i);
            let w = string_of(&v, i + 1, v.len());
            proof {
                let c = choose|c: int| 0 <= c < p@.len() && p@[c] == '=' && forall|j: int| 0 <= j < c ==> p@[j] != '=';
                assert(c == i) by {
                    if c < i { assert(v@[c] != '='); }
                    if c > i { assert(p@[i as int] == '='); }
                }
                assert(k@ =~= p@.take(i as int));
                assert(w@ =~= p@.skip(i + 1));
            }
            return Some((k, w));
        }
        i = i + 1;
    }
    None
}

/// The raw value of query parameter `key` (`None` when there is no query).
pub fn query_param(query: Option<&str>, key: &str) -> (r: Option<String>)
    ensures
        match query {
            None => r is None,
            Some(q) => match r {
                Some(v) => query_param_spec(q@, key@) == Some(v@),
                None => query_param_spec(q@, key@) is None,
            },
        },
{
    match query {
        Some(q) => query_value(q, key),
        None => None,
    }
}

fn query_value(q: &str, key: &str) -> (r: Option<String>)
    ensures
        match r {
            Some(v) => query_param_spec(q@, key@) == Some(v@),
            None => query_param_spec(q@, key@) is None,
        },
{
    let pieces = split_str(q, '&');
    let ghost ps = strings_view(pieces@);
    let mut i: usize = 0;
    assert(ps.skip(0) =~= ps);
    while i < pieces.len()
        invariant
            i <= pieces@.len(),
            ps == strings_view(pieces@),
            ps == split_on(q@, '&'),
            first_value(ps, key@) == first_value(ps.skip(i as int), key@),
        decreases pieces@.len() - i,
    {
        assert(ps.skip(i as int)[0] == pieces@[i as int]@);
        assert(ps.skip(i as int).drop_first() =~= ps.skip(i + 1));
        match split_once(pieces[i].as_str()) {
            Some((k, v)) => {
                if str_eq(k.as_str(), key) {
                    return Some(v);
                }
            },
            None => {},
        }
        i = i + 1;
    }
    None
}

} // verus!
