//! Icon uploads: which files are accepted, and the name they are stored under.
use vstd::prelude::*;
use crate::errors::{message_view, ApiError};
use crate::text::{ascii_lower, ascii_lower_eq, chars_of, decimal, push_char, string_of, str_eq, write_decimal};

verus! {

/// The content types an icon upload may declare.
pub open spec fn allowed_content_type(ct: Seq<char>) -> bool {
    ct == "image/png"@ || ct == "image/jpeg"@ || ct == "image/gif"@ || ct == "image/webp"@
        || ct == "image/svg+xml"@ || ct == "image/x-icon"@ || ct == "image/vnd.microsoft.icon"@
        || ct == "application/octet-stream"@
}

/// The file extensions an icon may have (lower case).
pub open spec fn allowed_extension(e: Seq<char>) -> bool {
    e == "png"@ || e == "jpg"@ || e == "jpeg"@ || e == "gif"@ || e == "webp"@ || e == "svg"@ || e == "ico"@
}

/// What follows the last `.` of a file name (`str::rsplit_once('.')`),
/// `None` when there is no `.`.
pub open spec fn extension(name: Seq<char>) -> Option<Seq<char>>
    decreases name.len(),
{
    if name.len() == 0 {
        None
    } else if name.last() == '.' {
        Some(Seq::empty())
    } else {
        match extension(name.drop_last()) {
            Some(e) => Some(e.push(name.last())),
            None => None,
        }
    }
}

pub open spec fn missing_file_message() -> Seq<char> {
    "缺少文件"@
}

pub open spec fn bad_type_message() -> Seq<char> {
    "不支持的文件类型"@
}

pub open spec fn bad_extension_message() -> Seq<char> {
    "仅支持图片格式：png/jpg/jpeg/gif/webp/svg/ico"@
}

/// The suffix an upload is stored with (`.` and the lower-cased extension),
/// or the message of the 400 that refuses it: no file name; a content type
/// missing or not an image type; an extension missing, empty or not an
/// image extension in any case. The extensions are ASCII and no character
/// outside ASCII lower-cases to one of their letters, so ASCII lower-casing
/// decides this as full lower-casing does.
pub open spec fn upload_suffix_spec(file_name: Option<Seq<char>>, content_type: Option<Seq<char>>) -> Result<Seq<char>, Seq<char>> {
    match file_name {
        None => Err(missing_file_message()),
        Some(name) => if !(content_type is Some && allowed_content_type(content_type->0)) {
            Err(bad_type_message())
        } else {
            match extension(name) {
                Some(e) => if e.len() > 0 && allowed_extension(ascii_lower(e)) {
                    Ok("."@ + ascii_lower(e))
                } else {
                    Err(bad_extension_message())
                },
                None => Err(bad_extension_message()),
            }
        },
    }
}

fn content_type_ok(ct: &str) -> (r: bool)
    ensures
        r == allowed_content_type(ct@),
{
    str_eq(ct, "image/png") || str_eq(ct, "image/jpeg") || str_eq(ct, "image/gif") || str_eq(ct, "image/webp")
        || str_eq(ct, "image/svg+xml") || str_eq(ct, "image/x-icon") || str_eq(ct, "image/vnd.microsoft.icon")
        || str_eq(ct, "application/octet-stream")
}

fn extension_of(name: &str) -> (r: Option<String>)
    ensures
        match r {
            Some(e) => extension(name@) == Some(e@),
            None => extension(name@) is None,
        },
{
    let v = chars_of(name);
    let mut i: usize = v.len();
    while i > 0
        invariant
            v@ == name@,
            i <= v@.len(),
            forall|j: int| i <= j < v@.len() ==> v@[j] != '.',
        decreases i,
    {
        if v[i - 1] == '.' {
            let e = string_of(&v, i, v.len());
            proof { lemma_extension_at(v@, i - 1); }
            return Some(e);
        }
        i = i - 1;
    }
    proof { lemma_no_extension(v@); }
    None
}

proof fn lemma_extension_at(s: Seq<char>, i: int)
    requires
        0 <= i < s.len(),
        s[i] == '.',
        forall|j: int| i < j < s.len() ==> s[j] != '.',
    ensures
        extension(s) == Some(s.skip(i + 1)),
    decreases s.len(),
{
    if s.len() - 1 == i {
        assert(s.skip(i + 1) =~= Seq::<char>::empty());
    } else {
        lemma_extension_at(s.drop_last(), i);
        assert(s.drop_last().skip(i + 1).push(s.last()) =~= s.skip(i + 1));
    }
}

proof fn lemma_no_extension(s: Seq<char>)
    requires
        forall|j: int| 0 <= j < s.len() ==> s[j] != '.',
    ensures
        extension(s) is None,
    decreases s.len(),
{
    if s.len() > 0 {
        lemma_no_extension(s.drop_last());
    }
}

fn lower_ascii(s: &str) -> (r: String)
    ensures
        r@ == ascii_lower(s@),
{
    let v = chars_of(s);
    let mut out = String::new();
    let mut i: usize = 0;
    while i < v.len()
        invariant
            v@ == s@,
            i <= v@.len(),
            out@ == ascii_lower(v@.take(i as int)),
        decreases v@.len() - i,
    {
        let c = v[i];
        let l: char = if 'A' <= c && c <= 'Z' { ((c as u32) + 32) as u8 as char } else { c };
        push_char(&mut out, l);
        assert(ascii_lower(v@.take(i + 1)) =~= ascii_lower(v@.take(i as int)).push(l));
        i = i + 1;
    }
    assert(v@.take(i as int) =~= v@);
    out
}

/// The storage suffix of an upload from its file name and declared content
/// type, or the 400 error refusing it.
pub fn upload_suffix(file_name: Option<&str>, content_type: Option<&str>) -> (r: Result<String, ApiError>)
    ensures
        match upload_suffix_spec(
            match file_name { Some(n) => Some(n@), None => None::<Seq<char>> },
            match content_type { Some(c) => Some(c@), None => None::<Seq<char>> },
        ) {
            Ok(s) => r matches Ok(t) && t@ == s,
            Err(m) => r matches Err(e) && e@ == message_view(400, m),
        },
{
    let name = match file_name {
        Some(n) => n,
        None => return Err(ApiError::bad_request("缺少文件")),
    };
    let type_ok = match content_type {
        Some(ct) => content_type_ok(ct),
        None => false,
    };
    if !type_ok {
        return Err(ApiError::bad_request("不支持的文件类型"));
    }
    match extension_of(name) {
        Some(e) => {
            let lower = lower_ascii(e.as_str());
            let ok = e.as_str().unicode_len() > 0 && (str_eq(lower.as_str(), "png") || str_eq(lower.as_str(), "jpg")
                || str_eq(lower.as_str(), "jpeg") || str_eq(lower.as_str(), "gif") || str_eq(lower.as_str(), "webp")
                || str_eq(lower.as_str(), "svg") || str_eq(lower.as_str(), "ico"));
            if ok {
                let mut suffix = String::from_str(".");
                suffix.append(lower.as_str());
                Ok(suffix)
            } else {
                Err(ApiError::bad_request("仅支持图片格式：png/jpg/jpeg/gif/webp/svg/ico"))
            }
        },
        None => Err(ApiError::bad_request("仅支持图片格式：png/jpg/jpeg/gif/webp/svg/ico")),
    }
}

/// The first bytes a file of the given suffix must start with, for the
/// formats whose header is checked (PNG, GIF, WebP); JPEG, ICO and SVG are
/// not checked.
pub open spec fn magic(suffix: Seq<char>) -> Option<Seq<u8>> {
    if suffix == ".png"@ {
        Some(seq![0x89u8, 0x50u8, 0x4eu8, 0x47u8])
    } else if suffix == ".gif"@ {
        Some(seq![0x47u8, 0x49u8, 0x46u8, 0x38u8])
    } else if suffix == ".webp"@ {
        Some(seq![0x52u8, 0x49u8, 0x46u8, 0x46u8])
    } else {
        None
    }
}

pub open spec fn mismatch_message() -> Seq<char> {
    "文件内容与格式不符"@
}

/// Whether `content` starts with `sig`.
pub open spec fn starts_with_bytes(content: Seq<u8>, sig: Seq<u8>) -> bool {
    sig.len() <= content.len() && content.take(sig.len() as int) == sig
}

/// The header check: a file whose format has a known header must start with it.
pub fn check_magic_bytes(content: &[u8], suffix: &str) -> (r: Result<(), ApiError>)
    ensures
        match magic(suffix@) {
            None => r is Ok,
            Some(sig) => (r is Ok <==> starts_with_bytes(content@, sig))
                && (r matches Err(e) ==> e@ == message_view(400, mismatch_message())),
        },
{
    let sig: [u8; 4] = if str_eq(suffix, ".png") {
        [0x89u8, 0x50u8, 0x4eu8, 0x47u8]
    } else if str_eq(suffix, ".gif") {
        [0x47u8, 0x49u8, 0x46u8, 0x38u8]
    } else if str_eq(suffix, ".webp") {
        [0x52u8, 0x49u8, 0x46u8, 0x46u8]
    } else {
        return Ok(());
    };
    let ghost want = magic(suffix@)->0;
    assert(sig@ =~= want);
    if content.len() < 4 {
        return Err(ApiError::bad_request("文件内容与格式不符"));
    }
    let mut i: usize = 0;
    while i < 4
        invariant
            i <= 4,
            content@.len() >= 4,
            sig@ == want,
            magic(suffix@) == Some(want),
            want.len() == 4,
            forall|j: int| 0 <= j < i ==> content@[j] == want[j],
        decreases 4 - i,
    {
        if content[i] != sig[i] {
            assert(content@.take(4)[i as int] != want[i as int]);
            return Err(ApiError::bad_request("文件内容与格式不符"));
        }
        i = i + 1;
    }
    assert(content@.take(4) =~= want);
    Ok(())
}

/// The message of a 413 for uploads above `max_mb` megabytes.
pub open spec fn too_large_message(max_mb: nat) -> Seq<char> {
    "文件大小不能超过 "@ + decimal(max_mb) + "MB"@
}

pub open spec fn empty_file_message() -> Seq<char> {
    "文件内容为空"@
}

/// The checks of an upload's content (`None`: it could not be read whole):
/// 413 when unreadable or above `max_mb` MiB, 400 when empty, then the
/// header check of its suffix.
pub fn check_upload_content(content: Option<&[u8]>, suffix: &str, max_mb: usize) -> (r: Result<(), ApiError>)
    requires
        max_mb * 1048576 <= usize::MAX,
    ensures
        match content {
            None => r matches Err(e) && e@ == message_view(413, too_large_message(max_mb as nat)),
            Some(c) => if c@.len() > max_mb * 1048576 {
                r matches Err(e) && e@ == message_view(413, too_large_message(max_mb as nat))
            } else if c@.len() == 0 {
                r matches Err(e) && e@ == message_view(400, empty_file_message())
            } else {
                match magic(suffix@) {
                    None => r is Ok,
                    Some(sig) => (r is Ok <==> starts_with_bytes(c@, sig))
                        && (r matches Err(e) ==> e@ == message_view(400, mismatch_message())),
                }
            },
        },
{
    let max_bytes = max_mb * 1048576;
    let c = match content {
        Some(c) => c,
        None => return Err(too_large(max_mb)),
    };
    if c.len() > max_bytes {
        return Err(too_large(max_mb));
    }
    if c.len() == 0 {
        return Err(ApiError::bad_request("文件内容为空"));
    }
    check_magic_bytes(c, suffix)
}

fn too_large(max_mb: usize) -> (r: ApiError)
    ensures
        r@ == message_view(413, too_large_message(max_mb as nat)),
{
    let mut msg = String::from_str("文件大小不能超过 ");
    write_decimal(&mut msg, max_mb as u64);
    msg.append("MB");
    ApiError::payload_too_large(msg.as_str())
}

/// The body limit of the upload route: the upload limit plus 128 KiB, so
/// that an oversized upload reaches the 413 check above.
pub fn upload_body_limit(max_mb: usize) -> (r: usize)
    requires
        max_mb * 1048576 + 131072 <= usize::MAX,
    ensures
        r == max_mb * 1048576 + 131072,
{
    max_mb * 1048576 + 131072
}

pub open spec fn is_lower_hex(c: char) -> bool {
    ('0' <= c <= '9') || ('a' <= c <= 'f')
}

/// `Uuid::new_v4().simple().to_string()`: a random version-4 UUID in its
/// simple form, 32 lower-case hexadecimal digits (the `Display` of `Simple`
/// writes the digits with the lower-case table).
#[verifier::external_body]
fn new_uuid_simple() -> (r: String)
    ensures
        r@.len() == 32,
        forall|i: int| 0 <= i < 32 ==> is_lower_hex(#[trigger] r@[i]),
{
    uuid::Uuid::new_v4().simple().to_string()
}

/// Where an upload went: its public URL and its file name.
#[derive(Debug)]
pub struct UploadReply {
    pub url: String,
    pub filename: String,
}

/// A fresh stored name for an upload: a random UUID and the suffix, served
/// under `/uploads/`.
pub fn upload_name(suffix: &str) -> (r: UploadReply)
    ensures
        exists|id: Seq<char>| {
            &&& id.len() == 32
            &&& forall|i: int| 0 <= i < 32 ==> is_lower_hex(#[trigger] id[i])
            &&& r.filename@ == id + suffix@
        },
        r.url@ == "/uploads/"@ + r.filename@,
{
    let mut filename = new_uuid_simple();
    let ghost id = filename@;
    filename.append(suffix);
    let mut url = String::from_str("/uploads/");
    url.append(filename.as_str());
    UploadReply { url, filename }
}


/// An accepted upload is stored with `.` and one of the image extensions.
pub proof fn lemma_accepted_suffix_allowed(file_name: Option<Seq<char>>, content_type: Option<Seq<char>>)
    ensures
        upload_suffix_spec(file_name, content_type) matches Ok(s) ==> (s.len() > 1 && s[0] == '.' && allowed_extension(s.drop_first())),
{
    if let Ok(s) = upload_suffix_spec(file_name, content_type) {
        reveal_strlit(".");
        let e = extension(file_name->0)->0;
        assert(s.drop_first() =~= ascii_lower(e));
    }
}

/// Content that passes the checks of `check_upload_content` for a suffix:
/// not empty, at most `max_mb` MiB, and with the header its format needs.
pub open spec fn content_ok(c: Seq<u8>, suffix: Seq<char>, max_mb: nat) -> bool {
    &&& 1 <= c.len() <= max_mb * 1048576
    &&& (magic(suffix) matches Some(sig) ==> starts_with_bytes(c, sig))
}

/// The acceptance rule of an icon upload as one statement: the upload is
/// stored exactly when its content type is an image type, its file name has
/// a non-empty extension that is an image extension in any case, its
/// content has 1 to `max_mb` MiB, and a PNG, GIF or WebP file starts with
/// `\x89PNG`, `GIF8` or `RIFF`.
pub proof fn lemma_upload_accepted(name: Seq<char>, ct: Seq<char>, c: Seq<u8>, max_mb: nat)
    ensures
        (upload_suffix_spec(Some(name), Some(ct)) matches Ok(s) && content_ok(c, s, max_mb)) <==> {
            &&& allowed_content_type(ct)
            &&& extension(name) matches Some(e)
            &&& e.len() > 0
            &&& allowed_extension(ascii_lower(e))
            &&& 1 <= c.len() <= max_mb * 1048576
            &&& ascii_lower(e) == "png"@ ==> starts_with_bytes(c, seq![0x89u8, 0x50u8, 0x4eu8, 0x47u8])
            &&& ascii_lower(e) == "gif"@ ==> starts_with_bytes(c, seq![0x47u8, 0x49u8, 0x46u8, 0x38u8])
            &&& ascii_lower(e) == "webp"@ ==> starts_with_bytes(c, seq![0x52u8, 0x49u8, 0x46u8, 0x46u8])
        },
{
    reveal_strlit(".");
    reveal_strlit("png");
    reveal_strlit(".png");
    reveal_strlit("gif");
    reveal_strlit(".gif");
    reveal_strlit("webp");
    reveal_strlit(".webp");
    assert("png"@ != "gif"@) by { assert("png"@[0] != "gif"@[0]); }
    assert("png"@ != "webp"@) by { assert("png"@.len() != "webp"@.len()); }
    assert("gif"@ != "webp"@) by { assert("gif"@.len() != "webp"@.len()); }
    if let Some(e) = extension(name) {
        let l = ascii_lower(e);
        let s = "."@ + l;
        assert(s.drop_first() =~= l);
        assert((s == ".png"@) == (l == "png"@)) by {
            if l == "png"@ { assert(s =~= ".png"@); }
            if s == ".png"@ { assert(".png"@.drop_first() =~= "png"@); }
        }
        assert((s == ".gif"@) == (l == "gif"@)) by {
            if l == "gif"@ { assert(s =~= ".gif"@); }
            if s == ".gif"@ { assert(".gif"@.drop_first() =~= "gif"@); }
        }
        assert((s == ".webp"@) == (l == "webp"@)) by {
            if l == "webp"@ { assert(s =~= ".webp"@); }
            if s == ".webp"@ { assert(".webp"@.drop_first() =~= "webp"@); }
        }
        if allowed_content_type(ct) && e.len() > 0 && allowed_extension(l) {
            assert(upload_suffix_spec(Some(name), Some(ct)) == Ok::<Seq<char>, Seq<char>>(s));
            assert(magic(s) == if l == "png"@ { Some(seq![0x89u8, 0x50u8, 0x4eu8, 0x47u8]) }
                else if l == "gif"@ { Some(seq![0x47u8, 0x49u8, 0x46u8, 0x38u8]) }
                else if l == "webp"@ { Some(seq![0x52u8, 0x49u8, 0x46u8, 0x46u8]) } else { None });
        }
    }
}

/// The content types an upload may declare are exactly `image/png`,
/// `image/jpeg`, `image/gif`, `image/webp`, `image/svg+xml`, `image/x-icon`,
/// `image/vnd.microsoft.icon` and `application/octet-stream`: a named file
/// is refused as of an unsupported type exactly when its content type is
/// missing or another one, and with one of these the upload is accepted
/// exactly when the extension after the last `.` of its name is `png`,
/// `jpg`, `jpeg`, `gif`, `webp`, `svg` or `ico` in any case.
pub proof fn lemma_content_types(name: Seq<char>, ct: Seq<char>)
    ensures
        ({
            let listed = ct == "image/png"@ || ct == "image/jpeg"@ || ct == "image/gif"@
                || ct == "image/webp"@ || ct == "image/svg+xml"@ || ct == "image/x-icon"@
                || ct == "image/vnd.microsoft.icon"@ || ct == "application/octet-stream"@;
            &&& (upload_suffix_spec(Some(name), Some(ct)) == Err::<Seq<char>, Seq<char>>(bad_type_message())) <==> !listed
            &&& listed ==> (upload_suffix_spec(Some(name), Some(ct)) is Ok <==> (extension(name) matches Some(e)
                && (ascii_lower(e) == "png"@ || ascii_lower(e) == "jpg"@ || ascii_lower(e) == "jpeg"@
                || ascii_lower(e) == "gif"@ || ascii_lower(e) == "webp"@ || ascii_lower(e) == "svg"@
                || ascii_lower(e) == "ico"@)))
        }),
        upload_suffix_spec(Some(name), None) == Err::<Seq<char>, Seq<char>>(bad_type_message()),
{
    reveal_strlit("不支持的文件类型");
    reveal_strlit("仅支持图片格式：png/jpg/jpeg/gif/webp/svg/ico");
    assert(bad_type_message() != bad_extension_message()) by {
        assert(bad_type_message().len() != bad_extension_message().len());
    }
    if let Some(e) = extension(name) {
        if allowed_extension(ascii_lower(e)) {
            reveal_strlit("png");
            reveal_strlit("jpg");
            reveal_strlit("jpeg");
            reveal_strlit("gif");
            reveal_strlit("webp");
            reveal_strlit("svg");
            reveal_strlit("ico");
            assert(ascii_lower(e).len() == e.len());
        }
    }
}

/// A file name that ends in `.` and an extension with no `.` in it, with a
/// declared image content type, is stored under `.` and that extension
/// lower-cased, whenever the extension is an image extension in any case:
/// `logo.jpg` sent as `image/jpeg` is stored with `.jpg`.
pub proof fn lemma_named_upload(base: Seq<char>, e: Seq<char>, ct: Seq<char>)
    requires
        e.len() > 0,
        forall|j: int| 0 <= j < e.len() ==> e[j] != '.',
        allowed_extension(ascii_lower(e)),
        ct == "image/png"@ || ct == "image/jpeg"@
            || ct == "image/gif"@ || ct == "image/webp"@ || ct == "image/svg+xml"@
            || ct == "image/x-icon"@ || ct == "image/vnd.microsoft.icon"@
            || ct == "application/octet-stream"@,
    ensures
        extension(base + "."@ + e) == Some(e),
        upload_suffix_spec(Some(base + "."@ + e), Some(ct)) == Ok::<Seq<char>, Seq<char>>("."@ + ascii_lower(e)),
{
    reveal_strlit(".");
    let n = base + "."@ + e;
    let i = base.len() as int;
    assert(n[i] == '.');
    assert forall|j: int| i < j < n.len() implies n[j] != '.' by {
        assert(n[j] == e[j - i - 1]);
    }
    lemma_extension_at(n, i);
    assert(n.skip(i + 1) =~= e);
}

} // verus!
