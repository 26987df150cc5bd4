//! Authenticated collection continuations. A cursor is the URL-safe base64
//! of an envelope (version, source, API base, resource and next-page target)
//! followed by its HMAC-SHA256 tag under the session's key. A cursor is
//! authenticated before anything in it is read, and its target is confined
//! to the source's own API.
use vstd::prelude::*;
use base64::Engine as _;
use crate::error::{ErrorCategory, ResourceError};
use crate::facts::{base64_len, base64_unpadded_len, BoundedWriter};
use crate::github::{parse_url, url_parse, ParsedUrl, UrlParts};
use crate::http::entropy_bytes;
use crate::text::{chars_of, owned, push_str};
use vstd::string::StringSliceAdditionalSpecFns;

verus! {

broadcast use vstd::string::group_string_axioms;

/// The envelope version this source writes and accepts.
pub const CURSOR_VERSION: u8 = 2;

/// Bytes of an HMAC-SHA256 tag.
pub const CURSOR_TAG_BYTES: usize = 32;

/// Bytes of `:cursor:`, the selector prefix a cursor is written after.
pub const CURSOR_SELECTOR_PREFIX_BYTES: usize = 8;

// ------------------------------------------------------------ outside calls

/// The bytes `URL_SAFE_NO_PAD` decodes `text` to; `None` when refused.
pub uninterp spec fn base64_url_decoded(text: Seq<u8>) -> Option<Seq<u8>>;

/// Decodes with `base64::engine::general_purpose::URL_SAFE_NO_PAD.decode`;
/// the contract only names the result.
#[verifier::external_body]
fn decode_url_safe(text: &str) -> (r: Option<Vec<u8>>)
    ensures
        match r {
            Some(b) => base64_url_decoded(text.spec_bytes()) == Some(b@),
            None => base64_url_decoded(text.spec_bytes()) is None,
        },
{
    base64::engine::general_purpose::URL_SAFE_NO_PAD.decode(text).ok()
}

/// The text `URL_SAFE_NO_PAD` encodes `bytes` to.
pub uninterp spec fn base64_url_encoded(bytes: Seq<u8>) -> Seq<char>;

/// Encodes with `base64::engine::general_purpose::URL_SAFE_NO_PAD`. The
/// contract names the result, states its length (four characters per three
/// bytes, and two or three for a final one or two, with no padding) and that
/// the same engine decodes the text back to `bytes`.
#[verifier::external_body]
fn encode_url_safe(bytes: &[u8]) -> (r: String)
    ensures
        r@ == base64_url_encoded(bytes@),
        r@.len() == base64_unpadded_len(bytes@.len()),
        base64_url_decoded(vstd::utf8::encode_utf8(r@)) == Some(bytes@),
{
    base64::engine::general_purpose::URL_SAFE_NO_PAD.encode(bytes)
}

/// The HMAC-SHA256 tag of `data` under `key`.
pub uninterp spec fn hmac_tag(key: Seq<u8>, data: Seq<u8>) -> Seq<u8>;

/// Signs with `aws_lc_rs::hmac::sign` under an HMAC-SHA256 key; the tag is
/// named, and is 32 bytes long.
#[verifier::external_body]
fn sign_tag(key: &[u8], data: &[u8]) -> (r: Vec<u8>)
    ensures
        r@ == hmac_tag(key@, data@),
        r@.len() == CURSOR_TAG_BYTES,
{
    let key = aws_lc_rs::hmac::Key::new(aws_lc_rs::hmac::HMAC_SHA256, key);
    aws_lc_rs::hmac::sign(&key, data).as_ref().to_vec()
}

/// Checks a tag with `aws_lc_rs::hmac::verify`, which computes the tag of
/// `data` and compares it with `tag`.
#[verifier::external_body]
fn verify_tag(key: &[u8], data: &[u8], tag: &[u8]) -> (b: bool)
    ensures
        b == (hmac_tag(key@, data@) == tag@),
{
    let key = aws_lc_rs::hmac::Key::new(aws_lc_rs::hmac::HMAC_SHA256, key);
    aws_lc_rs::hmac::verify(&key, data, tag).is_ok()
}

// ------------------------------------------------------------ refusals

pub open spec fn invalid_cursor_message() -> Seq<char> {
    "GitHub continuation is malformed or belongs to another resource, source, API base or session"@
}

pub open spec fn is_invalid_cursor(e: ResourceError) -> bool {
    e.category == ErrorCategory::InvalidReference && e.message@ == invalid_cursor_message() && e.details is None
}

pub fn invalid_cursor() -> (e: ResourceError)
    ensures
        is_invalid_cursor(e),
{
    ResourceError::new(
        ErrorCategory::InvalidReference,
        "GitHub continuation is malformed or belongs to another resource, source, API base or session",
    )
}

pub open spec fn is_cursor_serialization_error(e: ResourceError) -> bool {
    e.category == ErrorCategory::SourceUnavailable && e.message@ == "GitHub continuation could not be serialized"@
        && e.details is None
}

pub fn cursor_serialization_error() -> (e: ResourceError)
    ensures
        is_cursor_serialization_error(e),
{
    ResourceError::new(ErrorCategory::SourceUnavailable, "GitHub continuation could not be serialized")
}

/// A fresh session key from the operating system's entropy source.
pub fn new_session_key() -> (r: Result<[u8; 32], ResourceError>)
    ensures
        r matches Err(e) ==> e.category == ErrorCategory::SourceUnavailable && e.details is None && has_prefix(
            e.message@,
            "GitHub continuation key could not be generated: "@,
        ),
{
    match entropy_bytes::<32>() {
        Ok(key) => Ok(key),
        Err(error) => {
            let mut message = owned("GitHub continuation key could not be generated: ");
            push_str(&mut message, error.as_str());
            proof {
                let p = "GitHub continuation key could not be generated: "@;
                assert(message@.take(p.len() as int) =~= p);
            }
            Err(ResourceError::from_string(ErrorCategory::SourceUnavailable, message))
        },
    }
}

// ------------------------------------------------------------ sizes

/// What a cursor may take of the reference ceiling after the requested
/// reference and the selector prefix.
pub open spec fn spec_encoded_limit(requested_len: nat, max_reference_bytes: nat) -> Option<nat> {
    if requested_len + CURSOR_SELECTOR_PREFIX_BYTES <= max_reference_bytes {
        Some((max_reference_bytes - requested_len - CURSOR_SELECTOR_PREFIX_BYTES) as nat)
    } else {
        None
    }
}

pub fn encoded_limit(requested_len: usize, max_reference_bytes: usize) -> (r: Option<usize>)
    ensures
        match r {
            Some(n) => spec_encoded_limit(requested_len as nat, max_reference_bytes as nat) == Some(n as nat),
            None => spec_encoded_limit(requested_len as nat, max_reference_bytes as nat) is None,
        },
{
    let prefix = match requested_len.checked_add(CURSOR_SELECTOR_PREFIX_BYTES) {
        Some(p) => p,
        None => {
            return None;
        },
    };
    max_reference_bytes.checked_sub(prefix)
}

/// The envelope bytes a cursor may hold within `encoded_limit` characters:
/// the raw bytes that encode within it, less the tag; `None` when not even
/// one envelope byte fits.
pub open spec fn spec_payload_limit(encoded_limit: nat) -> Option<nat> {
    let raw = crate::facts::raw_capacity(encoded_limit);
    if raw <= CURSOR_TAG_BYTES {
        None
    } else {
        Some((raw - CURSOR_TAG_BYTES) as nat)
    }
}

pub fn payload_limit(encoded_limit: usize) -> (r: Option<usize>)
    ensures
        match r {
            Some(n) => spec_payload_limit(encoded_limit as nat) == Some(n as nat),
            None => spec_payload_limit(encoded_limit as nat) is None,
        },
{
    let raw = match crate::facts::raw_limit(encoded_limit) {
        Some(r) => r,
        None => {
            proof {
                assert(crate::facts::raw_capacity(encoded_limit as nat) <= encoded_limit) by {
                    let q = encoded_limit as nat / 4;
                    assert(q * 3 <= q * 4) by (nonlinear_arith);
                }
            }
            return None;
        },
    };
    if raw <= CURSOR_TAG_BYTES {
        return None;
    }
    Some(raw - CURSOR_TAG_BYTES)
}

// ------------------------------------------------------------ reading

/// The envelope an authentic cursor carries: its decoded bytes less the
/// trailing tag, when the tag is the envelope's under `key`.
pub open spec fn authentic_payload(cursor: Seq<u8>, key: Seq<u8>) -> Option<Seq<u8>> {
    match base64_url_decoded(cursor) {
        None => None,
        Some(b) => if b.len() <= CURSOR_TAG_BYTES {
            None
        } else {
            let n = b.len() - CURSOR_TAG_BYTES;
            if hmac_tag(key, b.take(n)) == b.skip(n) {
                Some(b.take(n))
            } else {
                None
            }
        },
    }
}

/// Authenticates a cursor and gives its envelope bytes.
pub fn authenticate(cursor: &str, key: &[u8]) -> (r: Result<Vec<u8>, ResourceError>)
    ensures
        match authentic_payload(cursor.spec_bytes(), key@) {
            Some(p) => r matches Ok(b) && b@ == p,
            None => r matches Err(e) && is_invalid_cursor(e),
        },
{
    let bytes = match decode_url_safe(cursor) {
        Some(b) => b,
        None => {
            return Err(invalid_cursor());
        },
    };
    if bytes.len() <= CURSOR_TAG_BYTES {
        return Err(invalid_cursor());
    }
    let n = bytes.len() - CURSOR_TAG_BYTES;
    let mut payload: Vec<u8> = Vec::new();
    let mut tag: Vec<u8> = Vec::new();
    let mut i: usize = 0;
    while i < bytes.len()
        invariant
            n == bytes@.len() - CURSOR_TAG_BYTES,
            i <= bytes@.len(),
            payload@ == bytes@.take(if i < n { i as int } else { n as int }),
            tag@ == if i <= n { Seq::<u8>::empty() } else { bytes@.subrange(n as int, i as int) },
        decreases bytes@.len() - i,
    {
        if i < n {
            payload.push(bytes[i]);
            proof {
                assert(bytes@.take(i + 1) =~= bytes@.take(i as int).push(bytes@[i as int]));
            }
        } else {
            tag.push(bytes[i]);
            proof {
                assert(bytes@.subrange(n as int, i + 1) =~= bytes@.subrange(n as int, i as int).push(bytes@[i as int]));
                if i == n {
                    assert(bytes@.subrange(n as int, i as int) =~= Seq::<u8>::empty());
                }
            }
        }
        i = i + 1;
    }
    proof {
        assert(tag@ =~= bytes@.skip(n as int));
    }
    if !verify_tag(key, payload.as_slice(), tag.as_slice()) {
        return Err(invalid_cursor());
    }
    Ok(payload)
}

/// Whether `path` begins with `prefix`.
pub open spec fn has_prefix(path: Seq<char>, prefix: Seq<char>) -> bool {
    prefix.len() <= path.len() && path.take(prefix.len() as int) == prefix
}

/// The target an envelope may continue to: the envelope must be this
/// version and name this source, API base and resource; its target must
/// parse, lie below the API (same scheme, host and port, and the API path as
/// a prefix of its path), and carry no credentials.
pub open spec fn envelope_target(
    version: u8,
    source: Seq<char>,
    api_text: Seq<char>,
    resource: Seq<char>,
    target: Seq<char>,
    own_source: Seq<char>,
    own_api: UrlParts,
    own_resource: Seq<char>,
) -> Option<UrlParts> {
    if version != CURSOR_VERSION || source != own_source || api_text != own_api.text || resource != own_resource {
        None
    } else {
        match url_parse(target) {
            None => None,
            Some(t) => if t.scheme == own_api.scheme && t.host == own_api.host && t.port == own_api.port && has_prefix(
                t.path,
                own_api.path,
            ) && !t.credentials() {
                Some(t)
            } else {
                None
            },
        }
    }
}

/// An envelope this owner wrote for a target below its API (same scheme,
/// host and port, the API path as a prefix of its path, no credentials)
/// checks back to that target; the same envelope read by an owner of
/// another source, API base or resource is refused.
pub proof fn lemma_envelope_returns_its_target(
    source: Seq<char>,
    api: UrlParts,
    resource: Seq<char>,
    target: Seq<char>,
    other_source: Seq<char>,
    other_api: UrlParts,
    other_resource: Seq<char>,
)
    requires
        url_parse(target) matches Some(t) && t.scheme == api.scheme && t.host == api.host && t.port == api.port
            && has_prefix(t.path, api.path) && !t.credentials(),
    ensures
        envelope_target(CURSOR_VERSION, source, api.text, resource, target, source, api, resource) == url_parse(
            target,
        ),
        other_source != source ==> envelope_target(
            CURSOR_VERSION,
            source,
            api.text,
            resource,
            target,
            other_source,
            api,
            resource,
        ) is None,
        other_api.text != api.text ==> envelope_target(
            CURSOR_VERSION,
            source,
            api.text,
            resource,
            target,
            source,
            other_api,
            resource,
        ) is None,
        other_resource != resource ==> envelope_target(
            CURSOR_VERSION,
            source,
            api.text,
            resource,
            target,
            source,
            api,
            other_resource,
        ) is None,
{
}

fn same_str(a: &str, b: &str) -> (r: bool)
    ensures
        r == (a@ == b@),
{
    let x = chars_of(a);
    let y = chars_of(b);
    crate::github::same_chars(x.as_slice(), y.as_slice())
}

fn same_host(a: &Option<String>, b: &Option<String>) -> (r: bool)
    ensures
        r == (crate::github::opt_chars(*a) == crate::github::opt_chars(*b)),
{
    match (a, b) {
        (Some(x), Some(y)) => same_str(x.as_str(), y.as_str()),
        (None, None) => true,
        _ => false,
    }
}

/// Checks an authentic envelope's fields and gives the target it may
/// continue to.
pub fn check_envelope(
    version: u8,
    source: &str,
    api_text: &str,
    resource: &str,
    target: &str,
    own_source: &str,
    own_api: &ParsedUrl,
    own_resource: &str,
) -> (r: Result<ParsedUrl, ResourceError>)
    ensures
        match envelope_target(
            version,
            source@,
            api_text@,
            resource@,
            target@,
            own_source@,
            own_api.parts(),
            own_resource@,
        ) {
            Some(t) => r matches Ok(u) && u.parts() == t,
            None => r matches Err(e) && is_invalid_cursor(e),
        },
{
    if version != CURSOR_VERSION || !same_str(source, own_source) || !same_str(api_text, own_api.text.as_str())
        || !same_str(resource, own_resource) {
        return Err(invalid_cursor());
    }
    let parsed = match parse_url(target) {
        Some(t) => t,
        None => {
            return Err(invalid_cursor());
        },
    };
    let path = chars_of(parsed.path.as_str());
    let same_api = same_str(parsed.scheme.as_str(), own_api.scheme.as_str()) && same_host(&parsed.host, &own_api.host)
        && parsed.port == own_api.port && crate::text::starts_with_str(path.as_slice(), own_api.path.as_str());
    if !same_api || parsed.has_credentials() {
        return Err(invalid_cursor());
    }
    Ok(parsed)
}

// ------------------------------------------------------------ writing

/// The cursor for envelope bytes `payload`: the envelope and its tag,
/// encoded, when the encoding fits `encoded_limit` characters.
pub open spec fn spec_seal(payload: Seq<u8>, key: Seq<u8>, encoded_limit: nat) -> Option<Seq<char>> {
    let raw = payload + hmac_tag(key, payload);
    if base64_unpadded_len(raw.len()) > encoded_limit {
        None
    } else {
        Some(base64_url_encoded(raw))
    }
}

/// Signs and encodes envelope bytes into a cursor of at most
/// `encoded_limit` characters.
///
/// A cursor sealed from a non-empty envelope authenticates, under the same
/// key, to that envelope.
pub fn seal(payload: &[u8], key: &[u8], encoded_limit: usize) -> (r: Option<String>)
    ensures
        match r {
            Some(s) => spec_seal(payload@, key@, encoded_limit as nat) == Some(s@),
            None => spec_seal(payload@, key@, encoded_limit as nat) is None,
        },
        match r {
            Some(s) => payload@.len() > 0 ==> authentic_payload(vstd::utf8::encode_utf8(s@), key@) == Some(
                payload@,
            ),
            None => true,
        },
{
    let tag = sign_tag(key, payload);
    let mut raw: Vec<u8> = Vec::new();
    let mut i: usize = 0;
    while i < payload.len()
        invariant
            i <= payload@.len(),
            raw@ == payload@.take(i as int),
        decreases payload@.len() - i,
    {
        raw.push(payload[i]);
        proof {
            assert(payload@.take(i + 1) =~= payload@.take(i as int).push(payload@[i as int]));
        }
        i = i + 1;
    }
    let mut k: usize = 0;
    proof {
        assert(payload@.take(payload@.len() as int) =~= payload@);
        assert(raw@ =~= payload@ + tag@.take(0));
    }
    while k < tag.len()
        invariant
            k <= tag@.len(),
            raw@ == payload@ + tag@.take(k as int),
        decreases tag@.len() - k,
    {
        raw.push(tag[k]);
        proof {
            assert(payload@ + tag@.take(k + 1) =~= (payload@ + tag@.take(k as int)).push(tag@[k as int]));
        }
        k = k + 1;
    }
    proof {
        assert(tag@.take(tag@.len() as int) =~= tag@);
    }
    let encoded_len = match base64_len(raw.len()) {
        Some(n) => n,
        None => {
            return None;
        },
    };
    if encoded_len > encoded_limit {
        return None;
    }
    let cursor = encode_url_safe(raw.as_slice());
    proof {
        let n = payload@.len() as int;
        assert(raw@.take(n) =~= payload@);
        assert(raw@.skip(n) =~= tag@);
    }
    Some(cursor)
}

/// The cursor for an envelope a serializer wrote through `writer`, whose
/// limit is the envelope budget: none when the envelope or its encoding does
/// not fit, a serialization refusal when the serializer failed otherwise.
pub fn continuation_cursor(writer: BoundedWriter, serialized: bool, key: &[u8], encoded_limit: usize) -> (r: Result<
    Option<String>,
    ResourceError,
>)
    ensures
        writer.exceeded ==> r matches Ok(None),
        !writer.exceeded && !serialized ==> (r matches Err(e) && is_cursor_serialization_error(e)),
        !writer.exceeded && serialized ==> match r {
            Ok(Some(c)) => spec_seal(writer.bytes@, key@, encoded_limit as nat) == Some(c@),
            Ok(None) => spec_seal(writer.bytes@, key@, encoded_limit as nat) is None,
            Err(_) => false,
        },
{
    if writer.exceeded {
        return Ok(None);
    }
    if !serialized {
        return Err(cursor_serialization_error());
    }
    Ok(seal(writer.bytes.as_slice(), key, encoded_limit))
}

} // verus!
