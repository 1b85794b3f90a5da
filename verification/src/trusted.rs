//! The calls this library makes into outside crates. Each item below is
//! believed, not proved: its doc comment says what its contract claims.
use vstd::prelude::*;
use crate::text::{ostring_view};
use dashmap::DashMap;
use rand::RngCore;
use sha2::Digest;
use ed25519_dalek::Signer;
use crate::json::{Json, get_spec, opt_as_str};
use crate::text::{rfind_char, starts_with_spec};

verus! {

/// The SHA-256 digest of a byte sequence (FIPS 180-4), as `sha2` computes it.
pub uninterp spec fn sha256_spec(data: Seq<u8>) -> Seq<u8>;

/// Calls `sha2::Sha256::digest`. Claims: the result is the SHA-256 digest of
/// the input (named, not described) and is 32 bytes long.
#[verifier::external_body]
pub(crate) fn sha256(data: &[u8]) -> (r: Vec<u8>)
    ensures
        r@ == sha256_spec(data@),
        r@.len() == 32,
{
    sha2::Sha256::digest(data).to_vec()
}

/// Calls `RngCore::fill_bytes` on `rand::thread_rng()`. Claims only the
/// length of the result; its bytes are random.
#[verifier::external_body]
pub(crate) fn thread_rng_bytes(n: usize) -> (r: Vec<u8>)
    ensures
        r@.len() == n,
{
    let mut buf = vec![0u8; n];
    rand::thread_rng().fill_bytes(&mut buf);
    buf
}

/// Calls `RngCore::fill_bytes` on `rand::rngs::OsRng`. Claims only the
/// length of the result; its bytes come from the operating system.
#[verifier::external_body]
pub(crate) fn os_rng_bytes(n: usize) -> (r: Vec<u8>)
    ensures
        r@.len() == n,
{
    let mut buf = vec![0u8; n];
    rand::rngs::OsRng.fill_bytes(&mut buf);
    buf
}

/// Calls `chrono::Utc::now().timestamp()`: the current Unix time in
/// seconds. Nothing is claimed of the value.
#[verifier::external_body]
pub(crate) fn utc_now_timestamp() -> (r: i64) {
    chrono::Utc::now().timestamp()
}

/// The RFC 3339 text `chrono` writes for the UTC instant `secs` seconds and
/// `nanos` nanoseconds after the Unix epoch; `None` where `chrono` has no
/// such instant.
pub uninterp spec fn rfc3339_utc_spec(secs: i64, nanos: u32) -> Option<Seq<char>>;

/// Calls `DateTime::<Utc>::from_timestamp` and, on the instant it gives,
/// `DateTime::to_rfc3339`. Claims: the result is the name above applied to
/// the arguments.
#[verifier::external_body]
pub(crate) fn rfc3339_utc(secs: i64, nanos: u32) -> (r: Option<String>)
    ensures
        match r {
            Some(s) => rfc3339_utc_spec(secs, nanos) == Some(s@),
            None => rfc3339_utc_spec(secs, nanos) is None,
        },
{
    chrono::DateTime::<chrono::Utc>::from_timestamp(secs, nanos).map(|t| t.to_rfc3339())
}

/// The parts of a parsed URL: scheme, host, explicit non-default port,
/// username, password, fragment, path.
pub struct UrlParts {
    pub scheme: String,
    pub host: Option<String>,
    pub port: Option<u16>,
    pub username: String,
    pub password: Option<String>,
    pub fragment: Option<String>,
    pub path: String,
}

impl View for UrlParts {
    type V = (
        Seq<char>,
        Option<Seq<char>>,
        Option<u16>,
        Seq<char>,
        Option<Seq<char>>,
        Option<Seq<char>>,
        Seq<char>,
    );

    open spec fn view(&self) -> Self::V {
        (
            self.scheme@,
            ostring_view(self.host),
            self.port,
            self.username@,
            ostring_view(self.password),
            ostring_view(self.fragment),
            self.path@,
        )
    }
}

/// What `url::Url::parse` makes of a text (WHATWG URL parsing), by the parts
/// `UrlParts` holds; `None` when parsing fails.
pub uninterp spec fn url_parse_spec(s: Seq<char>) -> Option<
    (Seq<char>, Option<Seq<char>>, Option<u16>, Seq<char>, Option<Seq<char>>, Option<Seq<char>>, Seq<char>),
>;

/// Calls `url::Url::parse` and reads `scheme()`, `host_str()`, `port()`,
/// `username()`, `password()`, `fragment()` and `path()` of the result.
/// Claims: the parts are those the parser determines for this input (named,
/// not described).
#[verifier::external_body]
pub(crate) fn url_parse(s: &str) -> (r: Option<UrlParts>)
    ensures
        match r {
            Some(p) => url_parse_spec(s@) == Some(p@),
            None => url_parse_spec(s@) is None,
        },
{
    match url::Url::parse(s) {
        Ok(u) => Some(UrlParts {
            scheme: u.scheme().to_string(),
            host: u.host_str().map(|h| h.to_string()),
            port: u.port(),
            username: u.username().to_string(),
            password: u.password().map(|p| p.to_string()),
            fragment: u.fragment().map(|f| f.to_string()),
            path: u.path().to_string(),
        }),
        Err(_) => None,
    }
}

/// The name/value pairs that `application/x-www-form-urlencoded` parsing
/// yields for a body, percent-decoded, in order.
pub uninterp spec fn form_pairs_spec(body: Seq<u8>) -> Seq<(Seq<char>, Seq<char>)>;

/// Calls `url::form_urlencoded::parse` and collects the pairs it yields.
/// Claims: the pairs are those the parser yields for this body (named).
#[verifier::external_body]
pub(crate) fn form_urlencoded_pairs(body: &[u8]) -> (r: Vec<(String, String)>)
    ensures
        r@.len() == form_pairs_spec(body@).len(),
        forall|i: int|
            0 <= i < r@.len() ==> ((#[trigger] r@[i]).0@, r@[i].1@) == form_pairs_spec(body@)[i],
{
    url::form_urlencoded::parse(body).map(|(k, v)| (k.into_owned(), v.into_owned())).collect()
}

#[verifier::external_type_specification]
#[verifier::external_body]
#[verifier::reject_recursive_types(K)]
#[verifier::reject_recursive_types(V)]
#[verifier::reject_recursive_types(S)]
pub struct ExDashMap<K, V, S>(DashMap<K, V, S>);

/// What a rate-bucket table holds: for each key, its `(count, window_start)`.
pub uninterp spec fn bucket_table(t: DashMap<String, (u32, i64)>) -> Map<Seq<char>, (u32, i64)>;

/// Calls `DashMap::new`. Claims: the table is empty.
#[verifier::external_body]
pub(crate) fn bucket_table_new() -> (r: DashMap<String, (u32, i64)>)
    ensures
        bucket_table(r) =~= Map::empty(),
{
    DashMap::new()
}

/// Calls `DashMap::get` and copies the value out. Claims: the value stored
/// under the key, if any.
#[verifier::external_body]
pub(crate) fn bucket_table_get(t: &DashMap<String, (u32, i64)>, key: &str) -> (r: Option<(u32, i64)>)
    ensures
        r == (if bucket_table(*t).contains_key(key@) {
            Some(bucket_table(*t)[key@])
        } else {
            None
        }),
{
    t.get(key).map(|e| *e.value())
}

/// Calls `DashMap::insert`. Claims: the key now maps to the value and no
/// other entry changed.
#[verifier::external_body]
pub(crate) fn bucket_table_insert(t: &mut DashMap<String, (u32, i64)>, key: String, v: (u32, i64))
    ensures
        bucket_table(*final(t)) == bucket_table(*old(t)).insert(key@, v),
{
    t.insert(key, v);
}

/// A bucket whose window began at most `max_age` seconds before `now` is kept.
pub open spec fn bucket_fresh(window_start: i64, now: i64, max_age: i64) -> bool {
    crate::http_layer::sat_sub(now, window_start) <= max_age
}

/// Calls `DashMap::retain` with a predicate that keeps fresh buckets.
/// Claims: exactly the fresh entries remain, unchanged.
#[verifier::external_body]
pub(crate) fn bucket_table_retain_fresh(t: &mut DashMap<String, (u32, i64)>, now: i64, max_age: i64)
    ensures
        bucket_table(*final(t)) == Map::new(
            |k: Seq<char>| bucket_table(*old(t)).contains_key(k) && bucket_fresh(bucket_table(*old(t))[k].1, now, max_age),
            |k: Seq<char>| bucket_table(*old(t))[k],
        ),
{
    t.retain(|_, b| crate::http_layer::is_fresh(b.1, now, max_age));
}

/// The Ed25519 signature (RFC 8032) of `message` under the secret key
/// `secret`. Named, not described.
pub uninterp spec fn ed25519_signature_spec(secret: Seq<u8>, message: Seq<u8>) -> Seq<u8>;

/// Builds `ed25519_dalek::SigningKey::from_bytes` from 32 secret-key bytes
/// and calls `Signer::sign` on the message. Claims: the result is the named
/// signature of the message under that key (Ed25519 signing is
/// deterministic) and is 64 bytes long.
#[verifier::external_body]
pub(crate) fn ed25519_sign(secret: &[u8], message: &[u8]) -> (r: Vec<u8>)
    requires
        secret@.len() == 32,
    ensures
        r@ == ed25519_signature_spec(secret@, message@),
        r@.len() == 64,
{
    let bytes: [u8; 32] = secret.try_into().unwrap();
    ed25519_dalek::SigningKey::from_bytes(&bytes).sign(message).to_bytes().to_vec()
}

/// `char::is_alphanumeric`: the Unicode `Alphabetic` or `Numeric` property.
pub uninterp spec fn is_alphanumeric_spec(c: char) -> bool;

/// Calls `char::is_alphanumeric`. Claims: the result is that property of
/// the character (named, not described).
#[verifier::external_body]
pub(crate) fn char_is_alphanumeric(c: char) -> (r: bool)
    ensures
        r == is_alphanumeric_spec(c),
{
    c.is_alphanumeric()
}

/// `str::to_lowercase`: the Unicode lowercase mapping of every character.
pub uninterp spec fn to_lowercase_spec(s: Seq<char>) -> Seq<char>;

/// Calls `str::to_lowercase`. Claims: the result is the lowercase mapping
/// of the text (named, not described).
#[verifier::external_body]
pub(crate) fn str_to_lowercase(s: &str) -> (r: String)
    ensures
        r@ == to_lowercase_spec(s@),
{
    s.to_lowercase()
}

/// `str::to_uppercase`: the Unicode uppercase mapping of every character.
pub uninterp spec fn to_uppercase_spec(s: Seq<char>) -> Seq<char>;

/// Calls `str::to_uppercase`. Claims: the result is the uppercase mapping
/// of the text (named, not described).
#[verifier::external_body]
pub(crate) fn str_to_uppercase(s: &str) -> (r: String)
    ensures
        r@ == to_uppercase_spec(s@),
{
    s.to_uppercase()
}

/// A single plain path component on every platform: not empty, not `.` or
/// `..`, and free of `/`, `\\` and `:`.
pub open spec fn plain_file_name(s: Seq<char>) -> bool {
    &&& s.len() > 0
    &&& s != "."@
    &&& s != ".."@
    &&& forall|i: int| 0 <= i < s.len() ==> s[i] != '/' && s[i] != '\\' && s[i] != ':'
}

/// The last component of a path whose syntax is the same on every
/// platform: a plain component alone, or `prefix/name` with `name` plain,
/// the prefix free of `:` and `\\`, and the path not opening with `//`.
/// `None` for other paths, whose syntax depends on the platform.
pub open spec fn portable_file_name(path: Seq<char>) -> Option<Seq<char>> {
    if plain_file_name(path) {
        Some(path)
    } else {
        match rfind_char(path, '/') {
            Some(i) => {
                let prefix = path.take(i);
                let name = path.skip(i + 1);
                if plain_file_name(name) && !starts_with_spec(path, "//"@)
                    && forall|j: int| 0 <= j < prefix.len() ==> prefix[j] != ':' && prefix[j] != '\\' {
                    Some(name)
                } else {
                    None
                }
            },
            None => None,
        }
    }
}

/// The extension of a file name as `Path::extension` documents it: the
/// text after the last `.`, none when there is no `.` or the only one
/// opens the name.
pub open spec fn ext_of(name: Seq<char>) -> Option<Seq<char>> {
    match rfind_char(name, '.') {
        Some(i) => if i == 0 {
            None
        } else {
            Some(name.skip(i + 1))
        },
        None => None,
    }
}

/// Calls `std::path::Path::file_name` on the text as a path and converts
/// the name to text. Claims what the documentation gives on every platform:
/// the file name of a path with a portable last component is that
/// component. Of other paths nothing is claimed.
#[verifier::external_body]
pub(crate) fn path_file_name(path: &str) -> (r: Option<String>)
    ensures
        portable_file_name(path@) is Some ==> r is Some && r->0@ == portable_file_name(path@)->0,
{
    std::path::Path::new(path).file_name().map(|name| name.to_string_lossy().to_string())
}

/// Calls `std::path::Path::extension` on the text as a path and converts
/// the extension to text. Claims, for a path with a portable last component
/// (see `portable_file_name`), the documented extension of that component.
/// Of other paths nothing is claimed.
#[verifier::external_body]
pub(crate) fn path_extension(path: &str) -> (r: Option<String>)
    ensures
        portable_file_name(path@) is Some ==> {
            &&& (r is Some <==> ext_of(portable_file_name(path@)->0) is Some)
            &&& r is Some ==> r->0@ == ext_of(portable_file_name(path@)->0)->0
        },
{
    std::path::Path::new(path).extension().and_then(|e| e.to_str()).map(|e| e.to_string())
}

/// Calls `std::time::SystemTime::now` and reads its seconds since the Unix
/// epoch (0 for a clock set before it). Nothing is claimed of the value.
#[verifier::external_body]
pub(crate) fn unix_time_secs() -> (r: u64) {
    std::time::SystemTime::now().duration_since(std::time::UNIX_EPOCH).map(|d| d.as_secs()).unwrap_or(0)
}

/// Declares `serde_json::Value`, the form in which `jsonwebtoken` hands out
/// the claims of a token before they are converted to `Json`.
#[verifier::external_type_specification]
#[verifier::external_body]
pub struct ExJsonValue(serde_json::Value);

/// Converts a `serde_json::Value` into the library's `Json`, variant for
/// variant (a number keeps its `as_i64` value). Part of the conversion of
/// `jwt_hs256_decode`'s result; nothing is claimed of it.
#[verifier::external_body]
fn json_from_value(v: &serde_json::Value) -> Json {
    match v {
        serde_json::Value::Null => Json::Null,
        serde_json::Value::Bool(b) => Json::Bool(*b),
        serde_json::Value::Number(n) => Json::Number(n.as_i64()),
        serde_json::Value::String(s) => Json::Str(s.clone()),
        serde_json::Value::Array(a) => Json::Array(a.iter().map(json_from_value).collect()),
        serde_json::Value::Object(m) => {
            Json::Object(m.iter().map(|(k, x)| (k.clone(), json_from_value(x))).collect())
        },
    }
}

/// The claims of `token` as `jsonwebtoken` reads them when the token's
/// HS256 signature checks out under the key `secret`, its payload is JSON,
/// its claims name no issuer other than `issuer`, and it carries `exp`
/// (and `iss` where `require_iss`); `None` otherwise. Everything the
/// decoder checks except expiry. Named, not described.
pub uninterp spec fn jwt_hs256_payload_spec(token: Seq<char>, secret: Seq<char>, issuer: Seq<char>, require_iss: bool) -> Option<Json>;

/// Calls `jsonwebtoken::decode` into a `serde_json::Value` with an HS256
/// `Validation` that checks `exp` against the clock, requires `exp` (and
/// `iss` where `require_iss`), and accepts only `issuer` as issuer.
/// Claims, of a token that passed: its claims are the named claims for
/// these settings (token, key, issuer, required claims); a string `iss`
/// claim is `issuer`; where `require_iss`, the `iss` claim is a string or a
/// list. Nothing is claimed of which tokens pass, as the expiry check reads
/// the clock.
#[verifier::external_body]
pub(crate) fn jwt_hs256_decode(token: &str, secret: &str, issuer: &str, require_iss: bool) -> (r: Option<Json>)
    ensures
        r matches Some(c) ==> {
            &&& jwt_hs256_payload_spec(token@, secret@, issuer@, require_iss) == Some(c)
            &&& opt_as_str(get_spec(c, "iss"@)) is Some ==> opt_as_str(get_spec(c, "iss"@)) == Some(issuer@)
            &&& require_iss ==> (get_spec(c, "iss"@) matches Some(v) && (v is Str || v is Array))
        },
{
    let mut validation = jsonwebtoken::Validation::new(jsonwebtoken::Algorithm::HS256);
    validation.validate_exp = true;
    if require_iss {
        validation.set_required_spec_claims(&["exp", "iss"]);
    }
    validation.set_issuer(&[issuer]);
    let key = jsonwebtoken::DecodingKey::from_secret(secret.as_bytes());
    jsonwebtoken::decode::<serde_json::Value>(token, &key, &validation).ok().map(|d| json_from_value(&d.claims))
}

/// Converts the library's `Json` into a `serde_json::Value`, variant for
/// variant (a number without an `i64` value becomes `null`; of members with
/// one key the last stays). Part of the conversion of `jwt_hs256_encode`'s
/// argument; nothing is claimed of it.
#[verifier::external_body]
fn json_to_value(j: &Json) -> serde_json::Value {
    match j {
        Json::Null => serde_json::Value::Null,
        Json::Bool(b) => serde_json::Value::Bool(*b),
        Json::Number(n) => n.map_or(serde_json::Value::Null, serde_json::Value::from),
        Json::Str(s) => serde_json::Value::String(s.clone()),
        Json::Array(a) => serde_json::Value::Array(a.iter().map(json_to_value).collect()),
        Json::Object(f) => {
            serde_json::Value::Object(f.iter().map(|(k, x)| (k.clone(), json_to_value(x))).collect())
        },
    }
}

/// The token `jsonwebtoken` writes for the claims under an HS256 header
/// and the key `secret`; `None` where it writes none. Named, not described.
pub uninterp spec fn jwt_hs256_encode_spec(claims: Json, secret: Seq<char>) -> Option<Seq<char>>;

/// Calls `jsonwebtoken::encode` with `Header::new(Algorithm::HS256)`, the
/// claims as a `serde_json::Value` and the key `secret`. Claims: the result
/// is the named token of those claims and key (signing with HMAC is a
/// function of its inputs).
#[verifier::external_body]
pub(crate) fn jwt_hs256_encode(claims: &Json, secret: &str) -> (r: Option<String>)
    ensures
        match r {
            Some(t) => jwt_hs256_encode_spec(*claims, secret@) == Some(t@),
            None => jwt_hs256_encode_spec(*claims, secret@) is None,
        },
{
    let header = jsonwebtoken::Header::new(jsonwebtoken::Algorithm::HS256);
    let key = jsonwebtoken::EncodingKey::from_secret(secret.as_bytes());
    jsonwebtoken::encode(&header, &json_to_value(claims), &key).ok()
}

} // verus!
