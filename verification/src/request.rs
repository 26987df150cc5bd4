//! Source-neutral HTTP requests: their method, redirect behaviour, bounded
//! JSON body and validated end-to-end headers. A source may add at most
//! sixteen headers of 16 KiB in all, none of them naming authority, cookies,
//! the host or message framing, and none twice.
use vstd::prelude::*;
use crate::error::{ErrorCategory, ResourceError};
use crate::github::{ParsedUrl, UrlParts};
use crate::http::MAX_SOURCE_REQUEST_HEADER_BYTES;
use crate::text::{chars_eq_str, chars_of, copy_bytes, owned};
use vstd::string::StringSliceAdditionalSpecFns;

verus! {

broadcast use vstd::string::group_string_axioms;

pub const MAX_SOURCE_REQUEST_HEADERS: usize = 16;

/// Six times the 64 MiB artifact ceiling (the worst-case JSON escaping of a
/// field) plus 64 KiB of envelope.
pub const MAX_HTTP_MUTATION_REQUEST_BYTES: usize = 402_718_720;

#[derive(Debug, Clone, Copy, PartialEq, Eq, Structural)]
pub enum HttpMethod {
    Get,
    Post,
    Patch,
}

#[derive(Debug, Clone, Copy, PartialEq, Eq, Structural)]
pub enum RedirectBehavior {
    FollowReads,
    Refuse,
}

/// One header a source adds: its normalized (lower-case) name and its value.
#[derive(Debug)]
pub struct SourceRequestHeader {
    pub name: String,
    pub value: String,
}

/// One request for the HTTP substrate to perform.
#[derive(Debug)]
pub struct HttpRequest {
    pub url: ParsedUrl,
    pub method: HttpMethod,
    pub redirect: RedirectBehavior,
    pub body: Option<Vec<u8>>,
    pub headers: Vec<SourceRequestHeader>,
    pub header_bytes: usize,
}

pub open spec fn header_views(v: Seq<SourceRequestHeader>) -> Seq<(Seq<char>, Seq<char>)> {
    v.map_values(|h: SourceRequestHeader| (h.name@, h.value@))
}

pub open spec fn body_view(b: Option<Vec<u8>>) -> Option<Seq<u8>> {
    match b {
        Some(v) => Some(v@),
        None => None,
    }
}

/// The abstract request: URL, method, redirect behaviour, body, headers and
/// the bytes its header names and values take.
pub struct RequestView {
    pub url: UrlParts,
    pub method: HttpMethod,
    pub redirect: RedirectBehavior,
    pub body: Option<Seq<u8>>,
    pub headers: Seq<(Seq<char>, Seq<char>)>,
    pub header_bytes: nat,
}

impl HttpRequest {
    pub open spec fn view(&self) -> RequestView {
        RequestView {
            url: self.url.parts(),
            method: self.method,
            redirect: self.redirect,
            body: body_view(self.body),
            headers: header_views(self.headers@),
            header_bytes: self.header_bytes as nat,
        }
    }
}

// ------------------------------------------------------------ outside calls

/// The name `reqwest::header::HeaderName::from_bytes` normalizes `name` to
/// (its `as_str`); `None` when it refuses the bytes.
pub uninterp spec fn header_name_parse(name: Seq<u8>) -> Option<Seq<char>>;

/// Parses a header name with `reqwest::header::HeaderName::from_bytes` and
/// gives its normalized text; the contract only names the result.
#[verifier::external_body]
fn parse_header_name(name: &str) -> (r: Option<String>)
    ensures
        match r {
            Some(n) => header_name_parse(name.spec_bytes()) == Some(n@),
            None => header_name_parse(name.spec_bytes()) is None,
        },
{
    reqwest::header::HeaderName::from_bytes(name.as_bytes()).ok().map(|n| n.as_str().to_owned())
}

/// A byte `HeaderValue` accepts: horizontal tab, or any byte from space up
/// other than DEL.
pub open spec fn header_value_byte(b: u8) -> bool {
    (b >= 32 && b != 127) || b == 9
}

pub open spec fn valid_header_value(value: Seq<u8>) -> bool {
    forall|i: int| 0 <= i < value.len() ==> header_value_byte(#[trigger] value[i])
}

/// Checks a header value with `reqwest::header::HeaderValue::from_str`, which
/// accepts exactly the values whose every byte is a tab or at least a space
/// and not DEL.
#[verifier::external_body]
fn header_value_accepted(value: &str) -> (b: bool)
    ensures
        b == valid_header_value(value.spec_bytes()),
{
    reqwest::header::HeaderValue::from_str(value).is_ok()
}

// ------------------------------------------------------------ requests

/// Names a source may not set: they control authority, cookies, the host or
/// message framing.
pub open spec fn is_authority_or_framing_header(name: Seq<char>) -> bool {
    name == "authorization"@ || name == "proxy-authorization"@ || name == "cookie"@ || name == "host"@
        || name == "connection"@ || name == "transfer-encoding"@ || name == "content-length"@ || name
        == "te"@ || name == "trailer"@ || name == "upgrade"@
}

fn authority_or_framing(name: &String) -> (b: bool)
    ensures
        b == is_authority_or_framing_header(name@),
{
    let n = chars_of(name.as_str());
    chars_eq_str(&n, "authorization") || chars_eq_str(&n, "proxy-authorization") || chars_eq_str(&n, "cookie")
        || chars_eq_str(&n, "host") || chars_eq_str(&n, "connection") || chars_eq_str(&n, "transfer-encoding")
        || chars_eq_str(&n, "content-length") || chars_eq_str(&n, "te") || chars_eq_str(&n, "trailer") || chars_eq_str(
        &n,
        "upgrade",
    )
}

/// No two headers share a name.
pub open spec fn distinct_names(headers: Seq<(Seq<char>, Seq<char>)>) -> bool {
    forall|i: int, j: int| 0 <= i < j < headers.len() ==> (#[trigger] headers[i]).0 != (#[trigger] headers[j]).0
}

pub open spec fn names_header(headers: Seq<(Seq<char>, Seq<char>)>, name: Seq<char>) -> bool {
    exists|i: int| 0 <= i < headers.len() && (#[trigger] headers[i]).0 == name
}

/// Why adding header `name: value` to `request` is refused, if it is.
pub open spec fn header_refusal(request: RequestView, name: Seq<char>, value: Seq<char>) -> Option<
    (ErrorCategory, Seq<char>),
> {
    let name_bytes = vstd::utf8::encode_utf8(name);
    let value_bytes = vstd::utf8::encode_utf8(value);
    if request.headers.len() >= MAX_SOURCE_REQUEST_HEADERS {
        Some((ErrorCategory::LimitExceeded, "HTTP request exceeds the 16-header source ceiling"@))
    } else {
        match header_name_parse(name_bytes) {
            None => Some((ErrorCategory::InvalidReference, "HTTP request header name is invalid"@)),
            Some(n) => if request.body is Some && n == "content-type"@ {
                Some(
                    (
                        ErrorCategory::InvalidReference,
                        "HTTP JSON mutation requests own their Content-Type header"@,
                    ),
                )
            } else if is_authority_or_framing_header(n) {
                Some(
                    (
                        ErrorCategory::InvalidReference,
                        "HTTP source header must not control authority, cookies, host, or message framing"@,
                    ),
                )
            } else if names_header(request.headers, n) {
                Some((ErrorCategory::InvalidReference, "HTTP source headers must not contain duplicate names"@))
            } else if !valid_header_value(value_bytes) {
                Some((ErrorCategory::InvalidReference, "HTTP request header value is invalid"@))
            } else if request.header_bytes + name_bytes.len() + value_bytes.len() > usize::MAX {
                Some((ErrorCategory::LimitExceeded, "HTTP source header byte count overflowed"@))
            } else if request.header_bytes + name_bytes.len() + value_bytes.len()
                > MAX_SOURCE_REQUEST_HEADER_BYTES {
                Some(
                    (
                        ErrorCategory::LimitExceeded,
                        "HTTP request source headers exceed the 16384-byte ceiling"@,
                    ),
                )
            } else {
                None
            },
        }
    }
}

/// The request once header `name: value` is added.
pub open spec fn with_header_spec(request: RequestView, name: Seq<char>, value: Seq<char>) -> RequestView {
    RequestView {
        headers: request.headers.push((header_name_parse(vstd::utf8::encode_utf8(name))->0, value)),
        header_bytes: request.header_bytes + vstd::utf8::encode_utf8(name).len() + vstd::utf8::encode_utf8(
            value,
        ).len(),
        ..request
    }
}

impl HttpRequest {
    /// A GET request for one absolute URL, following redirects.
    pub fn get(url: ParsedUrl) -> (r: HttpRequest)
        ensures
            r@ == (RequestView {
                url: url.parts(),
                method: HttpMethod::Get,
                redirect: RedirectBehavior::FollowReads,
                body: None,
                headers: Seq::empty(),
                header_bytes: 0,
            }),
    {
        let r = HttpRequest {
            url,
            method: HttpMethod::Get,
            redirect: RedirectBehavior::FollowReads,
            body: None,
            headers: Vec::new(),
            header_bytes: 0,
        };
        proof {
            assert(header_views(r.headers@) =~= Seq::empty());
        }
        r
    }

    /// One bounded non-redirecting JSON POST request.
    pub fn post_json(url: ParsedUrl, body: Vec<u8>) -> (r: Result<HttpRequest, ResourceError>)
        ensures
            json_request(r, url.parts(), HttpMethod::Post, body@),
    {
        Self::json(url, HttpMethod::Post, body)
    }

    /// One bounded non-redirecting JSON PATCH request.
    pub fn patch_json(url: ParsedUrl, body: Vec<u8>) -> (r: Result<HttpRequest, ResourceError>)
        ensures
            json_request(r, url.parts(), HttpMethod::Patch, body@),
    {
        Self::json(url, HttpMethod::Patch, body)
    }

    fn json(url: ParsedUrl, method: HttpMethod, body: Vec<u8>) -> (r: Result<HttpRequest, ResourceError>)
        ensures
            json_request(r, url.parts(), method, body@),
    {
        if body.len() > MAX_HTTP_MUTATION_REQUEST_BYTES {
            return Err(
                ResourceError::new(
                    ErrorCategory::LimitExceeded,
                    "HTTP mutation request body exceeds the 402718720-byte encoded ceiling",
                ),
            );
        }
        let r = HttpRequest {
            url,
            method,
            redirect: RedirectBehavior::Refuse,
            body: Some(body),
            headers: Vec::new(),
            header_bytes: 0,
        };
        proof {
            assert(header_views(r.headers@) =~= Seq::empty());
        }
        Ok(r)
    }

    /// Adds one validated non-secret end-to-end header.
    pub fn with_header(self, name: &str, value: &str) -> (r: Result<HttpRequest, ResourceError>)
        ensures
            match header_refusal(self@, name@, value@) {
                Some((category, message)) => r matches Err(e) && e.category == category && e.message@ == message
                    && e.details is None,
                None => r matches Ok(q) && q@ == with_header_spec(self@, name@, value@),
            },
            r matches Ok(q) ==> q@.headers.len() <= MAX_SOURCE_REQUEST_HEADERS && q@.header_bytes
                <= MAX_SOURCE_REQUEST_HEADER_BYTES,
            distinct_names(self@.headers) ==> (r matches Ok(q) ==> distinct_names(q@.headers)),
    {
        let mut request = self;
        if request.headers.len() >= MAX_SOURCE_REQUEST_HEADERS {
            return Err(
                ResourceError::new(ErrorCategory::LimitExceeded, "HTTP request exceeds the 16-header source ceiling"),
            );
        }
        let parsed = match parse_header_name(name) {
            Some(n) => n,
            None => {
                return Err(
                    ResourceError::new(ErrorCategory::InvalidReference, "HTTP request header name is invalid"),
                );
            },
        };
        let parsed_chars = chars_of(parsed.as_str());
        if request.body.is_some() && chars_eq_str(&parsed_chars, "content-type") {
            return Err(
                ResourceError::new(
                    ErrorCategory::InvalidReference,
                    "HTTP JSON mutation requests own their Content-Type header",
                ),
            );
        }
        if authority_or_framing(&parsed) {
            return Err(
                ResourceError::new(
                    ErrorCategory::InvalidReference,
                    "HTTP source header must not control authority, cookies, host, or message framing",
                ),
            );
        }
        let ghost views = header_views(request.headers@);
        let mut i: usize = 0;
        while i < request.headers.len()
            invariant
                i <= request.headers@.len(),
                request@ == self@,
                views == header_views(request.headers@),
                parsed_chars@ == parsed@,
                request.headers@.len() < MAX_SOURCE_REQUEST_HEADERS,
                header_name_parse(name.spec_bytes()) == Some(parsed@),
                !(request.body is Some && parsed@ == "content-type"@),
                !is_authority_or_framing_header(parsed@),
                forall|k: int| 0 <= k < i ==> (#[trigger] views[k]).0 != parsed@,
            decreases request.headers@.len() - i,
        {
            let existing = chars_of(request.headers[i].name.as_str());
            if crate::github::same_chars(existing.as_slice(), parsed_chars.as_slice()) {
                proof {
                    assert(views[i as int].0 == parsed@);
                    assert(names_header(views, parsed@));
                }
                return Err(
                    ResourceError::new(
                        ErrorCategory::InvalidReference,
                        "HTTP source headers must not contain duplicate names",
                    ),
                );
            }
            i = i + 1;
        }
        proof {
            assert(!names_header(views, parsed@));
        }
        if !header_value_accepted(value) {
            return Err(ResourceError::new(ErrorCategory::InvalidReference, "HTTP request header value is invalid"));
        }
        let name_len = name.as_bytes().len();
        let value_len = value.as_bytes().len();
        if name_len > usize::MAX - request.header_bytes || value_len > usize::MAX - request.header_bytes
            - name_len {
            return Err(
                ResourceError::new(ErrorCategory::LimitExceeded, "HTTP source header byte count overflowed"),
            );
        }
        let header_bytes = request.header_bytes + name_len + value_len;
        if header_bytes > MAX_SOURCE_REQUEST_HEADER_BYTES {
            return Err(
                ResourceError::new(
                    ErrorCategory::LimitExceeded,
                    "HTTP request source headers exceed the 16384-byte ceiling",
                ),
            );
        }
        let header = SourceRequestHeader { name: parsed, value: owned(value) };
        request.headers.push(header);
        request.header_bytes = header_bytes;
        proof {
            assert(header_views(request.headers@) =~= views.push((parsed@, value@)));
        }
        Ok(request)
    }

    /// The requested URL.
    pub fn url(&self) -> (u: &ParsedUrl)
        ensures
            u.parts() == self.url.parts(),
    {
        &self.url
    }

    /// A replay of this request for a retry: only a GET, which carries no
    /// body, may be sent again.
    pub fn retry_copy(&self) -> (r: Option<HttpRequest>)
        ensures
            self.method == HttpMethod::Get <==> r is Some,
            r matches Some(c) ==> c@ == self@,
    {
        if self.method != HttpMethod::Get {
            return None;
        }
        let mut headers: Vec<SourceRequestHeader> = Vec::new();
        let mut i: usize = 0;
        while i < self.headers.len()
            invariant
                i <= self.headers@.len(),
                headers@.len() == i,
                forall|k: int| 0 <= k < i ==> (#[trigger] headers@[k]).name@ == self.headers@[k].name@
                    && headers@[k].value@ == self.headers@[k].value@,
            decreases self.headers@.len() - i,
        {
            let h = SourceRequestHeader {
                name: owned(self.headers[i].name.as_str()),
                value: owned(self.headers[i].value.as_str()),
            };
            headers.push(h);
            i = i + 1;
        }
        let body = match &self.body {
            Some(b) => Some(copy_bytes(b.as_slice())),
            None => None,
        };
        let r = HttpRequest {
            url: self.url.duplicate(),
            method: self.method,
            redirect: self.redirect,
            body,
            headers,
            header_bytes: self.header_bytes,
        };
        proof {
            assert(header_views(r.headers@) =~= header_views(self.headers@));
        }
        Some(r)
    }
}

/// `r` is the bounded JSON request for `url`, `method` and `body`, or the
/// refusal of a body over the mutation ceiling.
pub open spec fn json_request(r: Result<HttpRequest, ResourceError>, url: UrlParts, method: HttpMethod, body: Seq<
    u8,
>) -> bool {
    if body.len() > MAX_HTTP_MUTATION_REQUEST_BYTES {
        r matches Err(e) && e.category == ErrorCategory::LimitExceeded && e.message@
            == "HTTP mutation request body exceeds the 402718720-byte encoded ceiling"@ && e.details is None
    } else {
        r matches Ok(q) && q@ == (RequestView {
            url,
            method,
            redirect: RedirectBehavior::Refuse,
            body: Some(body),
            headers: Seq::empty(),
            header_bytes: 0,
        })
    }
}

} // verus!
