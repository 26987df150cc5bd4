//! Identity checks of facts records: the links a record carries must name
//! this deployment's own objects, carry no credentials, and, where their
//! route is recognizable, name the addressed repository and object.
use vstd::prelude::*;
use crate::error::{ErrorCategory, ErrorDetails, ErrorReason, ResourceError};
use crate::facts::{decode_segment, decoded_segment, failure, is_facts_failure, require_login, Presence};
use crate::github::{
    join_url, parse_url, same_chars, segment_views, url_join, url_parse, GithubRepositoryIdentity,
    ParsedUrl, UrlParts,
};
use crate::text::{
    chars_eq_ignore_case, chars_eq_str, chars_of, eq_ignore_case, is_digit, owned, parse_u64, push_str,
    sub_chars,
    parse_u64_spec, split_chars, split_seq, string_of, strip_prefix_chars, strip_prefix_seq,
    trim_char, trim_char_chars, trim_end_char, trim_end_char_chars, views,
};

verus! {

broadcast use vstd::string::group_string_axioms;

// ------------------------------------------------------------ outcomes

/// `r` succeeded when `reason` is `None`, else failed as a facts failure
/// with that reason.
pub open spec fn fails_with<T>(r: Result<T, ResourceError>, reason: Option<ErrorReason>) -> bool {
    match reason {
        None => r is Ok,
        Some(reason) => r matches Err(e) && is_facts_failure(e, reason),
    }
}

/// The refusal of a record that names another pull request's object.
pub open spec fn is_foreign_record(e: ResourceError, message: Seq<char>) -> bool {
    e.category == ErrorCategory::NotFound && e.message@ == message && e.details == Some(
        ErrorDetails::new_spec(ErrorReason::UpstreamIdentityMismatch),
    )
}

fn foreign_record(message: &str) -> (e: ResourceError)
    ensures
        is_foreign_record(e, message@),
{
    ResourceError::new(ErrorCategory::NotFound, message).with_details(
        ErrorDetails::new(ErrorReason::UpstreamIdentityMismatch),
    )
}

fn same_str(a: &str, b: &str) -> (r: bool)
    ensures
        r == (a@ == b@),
{
    let x = chars_of(a);
    let y = chars_of(b);
    same_chars(x.as_slice(), y.as_slice())
}

fn same_str_ignore_case(a: &str, b: &str) -> (r: bool)
    ensures
        r == eq_ignore_case(a@, b@),
{
    let x = chars_of(a);
    let y = chars_of(b);
    chars_eq_ignore_case(x.as_slice(), y.as_slice())
}

fn is_empty_str(a: &str) -> (r: bool)
    ensures
        r == (a@.len() == 0),
{
    chars_of(a).len() == 0
}

// ------------------------------------------------------------ authority

/// Parses the deployment's web origin. One that is not a URL leaves the
/// source unable to check web links, so the record cannot be accepted.
pub fn web_origin(text: &str) -> (r: Result<ParsedUrl, ResourceError>)
    ensures
        match url_parse(text@) {
            Some(p) => r matches Ok(u) && u.parts() == p,
            None => r matches Err(e) && is_facts_failure(e, ErrorReason::UpstreamUnavailable),
        },
{
    match parse_url(text) {
        Some(p) => Ok(p),
        None => Err(failure(ErrorReason::UpstreamUnavailable)),
    }
}

/// Two URLs share an origin: both have a tuple origin and it is the same.
/// An opaque origin equals no other URL's.
pub open spec fn same_origin(a: UrlParts, b: UrlParts) -> bool {
    a.origin is Some && a.origin == b.origin
}

pub open spec fn spec_clean_authority(url: UrlParts, expected: UrlParts) -> bool {
    same_origin(url, expected) && !url.credentials()
}

pub fn origins_match(url: &ParsedUrl, expected: &ParsedUrl) -> (b: bool)
    ensures
        b == same_origin(url.parts(), expected.parts()),
{
    match (&url.origin, &expected.origin) {
        (Some(a), Some(b)) => same_str(a.0.as_str(), b.0.as_str()) && same_str(a.1.as_str(), b.1.as_str())
            && a.2 == b.2,
        _ => false,
    }
}

/// A URL names this deployment's authority: the same origin, and no
/// credentials.
pub fn clean_authority(url: &ParsedUrl, expected: &ParsedUrl) -> (b: bool)
    ensures
        b == spec_clean_authority(url.parts(), expected.parts()),
{
    origins_match(url, expected) && !url.has_credentials()
}

/// Whether `actual` names exactly the object at `expected`: a clean
/// authority, the same path up to ASCII case, and no query or fragment.
pub open spec fn names_object(actual: UrlParts, expected: UrlParts) -> bool {
    &&& spec_clean_authority(actual, expected)
    &&& eq_ignore_case(actual.path, expected.path)
    &&& actual.query_text is None
    &&& actual.fragment is None
}

fn names_object_exec(actual: &ParsedUrl, expected: &ParsedUrl) -> (b: bool)
    ensures
        b == names_object(actual.parts(), expected.parts()),
{
    clean_authority(actual, expected) && same_str_ignore_case(actual.path.as_str(), expected.path.as_str())
        && actual.query_text.is_none() && actual.fragment.is_none()
}

/// A record's own API link must parse and name `expected` exactly.
pub fn same_url(actual: &str, expected: &ParsedUrl) -> (r: Result<(), ResourceError>)
    ensures
        fails_with(
            r,
            match url_parse(actual@) {
                None => Some(ErrorReason::UpstreamMalformed),
                Some(a) => if names_object(a, expected.parts()) {
                    None
                } else {
                    Some(ErrorReason::UpstreamIdentityMismatch)
                },
            },
        ),
{
    let parsed = match parse_url(actual) {
        Some(p) => p,
        None => {
            return Err(failure(ErrorReason::UpstreamMalformed));
        },
    };
    if !names_object_exec(&parsed, expected) {
        return Err(failure(ErrorReason::UpstreamIdentityMismatch));
    }
    Ok(())
}

pub open spec fn spec_matches_object_url(value: Seq<char>, expected: UrlParts) -> bool {
    url_parse(value) matches Some(a) && names_object(a, expected)
}

pub fn matches_object_url(value: &str, expected: &ParsedUrl) -> (b: bool)
    ensures
        b == spec_matches_object_url(value@, expected.parts()),
{
    match parse_url(value) {
        Some(actual) => names_object_exec(&actual, expected),
        None => false,
    }
}

pub open spec fn present_text(link: &Presence<String>) -> Option<Seq<char>> {
    match link {
        Presence::Present(v) => Some(v@),
        _ => None,
    }
}

/// A required link must name exactly this deployment's own object.
pub fn require_object_link(link: &Presence<String>, expected: &ParsedUrl) -> (r: Result<(), ResourceError>)
    ensures
        match present_text(link) {
            Some(v) if spec_matches_object_url(v, expected.parts()) => r is Ok,
            _ => r matches Err(e) && is_foreign_record(
                e,
                "GitHub record does not belong to the addressed pull request"@,
            ),
        },
{
    match link.value() {
        Some(value) => {
            if matches_object_url(value.as_str(), expected) {
                return Ok(());
            }
        },
        None => {},
    }
    Err(foreign_record("GitHub record does not belong to the addressed pull request"))
}

/// An optional link, when present, must name this deployment's own object.
pub fn validate_optional_object_link(link: &Presence<String>, expected: &ParsedUrl) -> (r: Result<
    (),
    ResourceError,
>)
    ensures
        fails_with(
            r,
            match present_text(link) {
                Some(v) if !spec_matches_object_url(v, expected.parts()) => Some(
                    ErrorReason::UpstreamIdentityMismatch,
                ),
                _ => None,
            },
        ),
{
    match link.value() {
        Some(value) => {
            if !matches_object_url(value.as_str(), expected) {
                return Err(failure(ErrorReason::UpstreamIdentityMismatch));
            }
        },
        None => {},
    }
    Ok(())
}

// ------------------------------------------------------------ native ids

/// The id every record carries, checked against the id a read addressed.
pub fn require_observed_id(expected: Option<u64>, observed: Option<u64>) -> (r: Result<u64, ResourceError>)
    ensures
        match observed {
            None => r matches Err(e) && is_facts_failure(e, ErrorReason::UpstreamMalformed),
            Some(o) => match expected {
                Some(x) if x != o => r matches Err(e) && is_facts_failure(
                    e,
                    ErrorReason::UpstreamIdentityMismatch,
                ),
                _ => r == Ok::<u64, ResourceError>(o),
            },
        },
{
    let observed = match observed {
        Some(o) => o,
        None => {
            return Err(failure(ErrorReason::UpstreamMalformed));
        },
    };
    match expected {
        Some(x) => {
            if x != observed {
                return Err(failure(ErrorReason::UpstreamIdentityMismatch));
            }
        },
        None => {},
    }
    Ok(observed)
}

/// A field the record must carry.
pub fn required<T>(field: &Presence<T>) -> (r: Result<&T, ResourceError>)
    ensures
        match field {
            Presence::Present(v) => r == Ok::<&T, ResourceError>(v),
            _ => r matches Err(e) && is_facts_failure(e, ErrorReason::UpstreamMalformed),
        },
{
    match field.value() {
        Some(v) => Ok(v),
        None => Err(failure(ErrorReason::UpstreamMalformed)),
    }
}

/// Forty lowercase hexadecimal digits.
pub open spec fn is_sha(s: Seq<char>) -> bool {
    s.len() == 40 && forall|i: int| 0 <= i < s.len() ==> is_digit(#[trigger] s[i]) || ('a' <= s[i] <= 'f')
}

/// A commit id the record must carry: forty lowercase hexadecimal digits.
pub fn sha(field: &Presence<String>) -> (r: Result<&str, ResourceError>)
    ensures
        match field {
            Presence::Present(v) => if is_sha(v@) {
                r matches Ok(s) && s@ == v@
            } else {
                r matches Err(e) && is_facts_failure(e, ErrorReason::UpstreamMalformed)
            },
            _ => r matches Err(e) && is_facts_failure(e, ErrorReason::UpstreamMalformed),
        },
{
    let value = required(field)?;
    let chars = chars_of(value.as_str());
    if chars.len() != 40 {
        return Err(failure(ErrorReason::UpstreamMalformed));
    }
    let mut i: usize = 0;
    while i < chars.len()
        invariant
            i <= chars@.len(),
            chars@ == value@,
            *field == Presence::Present(*value),
            forall|k: int| 0 <= k < i ==> is_digit(#[trigger] chars@[k]) || ('a' <= chars@[k] <= 'f'),
        decreases chars@.len() - i,
    {
        let c = chars[i];
        if !(('0' <= c && c <= '9') || ('a' <= c && c <= 'f')) {
            proof {
                assert(!(is_digit(chars@[i as int]) || ('a' <= chars@[i as int] <= 'f')));
                assert(!is_sha(value@));
            }
            return Err(failure(ErrorReason::UpstreamMalformed));
        }
        i = i + 1;
    }
    Ok(value.as_str())
}

// ------------------------------------------------------------ API routes

/// The object an API link names below the deployment's API path, as
/// (owner, name, family, number text): `repos/<owner>/<name>/<family>/<n>`,
/// or `repos/<owner>/<name>/issues/comments/<id>` with family
/// `issues/comments`.
pub open spec fn api_route_shape(path: Seq<char>, api_path: Seq<char>) -> Option<
    (Seq<char>, Seq<char>, Seq<char>, Seq<char>),
> {
    match strip_prefix_seq(path, trim_end_char(api_path, '/')) {
        None => None,
        Some(rest) => match strip_prefix_seq(rest, "/repos/"@) {
            None => None,
            Some(tail) => {
                let parts = split_seq(trim_end_char(tail, '/'), '/');
                if parts.len() < 4 {
                    None
                } else if parts[2] == "issues"@ && parts[3] == "comments"@ {
                    if parts.len() == 5 {
                        Some((parts[0], parts[1], "issues/comments"@, parts[4]))
                    } else {
                        None
                    }
                } else if parts.len() == 4 {
                    Some((parts[0], parts[1], parts[2], parts[3]))
                } else {
                    None
                }
            },
        },
    }
}

/// An API object route.
#[derive(Debug)]
pub struct ApiRoute {
    pub owner: String,
    pub name: String,
    pub family: String,
    pub number: u64,
}

/// The API route of `url`, if it has one; its number must be a `u64`.
pub fn api_route(url: &ParsedUrl, api: &ParsedUrl) -> (r: Result<Option<ApiRoute>, ResourceError>)
    ensures
        match api_route_shape(url.path@, api.path@) {
            None => r matches Ok(None),
            Some((o, n, f, t)) => match parse_u64_spec(t) {
                None => r matches Err(e) && is_facts_failure(e, ErrorReason::UpstreamMalformed),
                Some(k) => r matches Ok(Some(route)) && route.owner@ == o && route.name@ == n
                    && route.family@ == f && route.number == k,
            },
        },
{
    let path = chars_of(url.path.as_str());
    let api_path = chars_of(api.path.as_str());
    let prefix = trim_end_char_chars(api_path.as_slice(), '/');
    let rest = match strip_prefix_chars(path.as_slice(), prefix.as_slice()) {
        Some(r) => r,
        None => {
            return Ok(None);
        },
    };
    let repos = chars_of("/repos/");
    let tail = match strip_prefix_chars(rest.as_slice(), repos.as_slice()) {
        Some(t) => t,
        None => {
            return Ok(None);
        },
    };
    let trimmed = trim_end_char_chars(tail.as_slice(), '/');
    let parts = split_chars(trimmed.as_slice(), '/');
    let ghost p = views(parts@);
    if parts.len() < 4 {
        return Ok(None);
    }
    proof {
        assert(p[0] == parts@[0]@ && p[1] == parts@[1]@ && p[2] == parts@[2]@ && p[3] == parts@[3]@);
    }
    let (family, number_text) = if chars_eq_str(parts[2].as_slice(), "issues") && chars_eq_str(
        parts[3].as_slice(),
        "comments",
    ) {
        if parts.len() != 5 {
            return Ok(None);
        }
        proof {
            assert(p[4] == parts@[4]@);
        }
        (owned("issues/comments"), &parts[4])
    } else {
        if parts.len() != 4 {
            return Ok(None);
        }
        (string_of(parts[2].as_slice()), &parts[3])
    };
    let number = match parse_u64(number_text.as_slice()) {
        Some(n) => n,
        None => {
            return Err(failure(ErrorReason::UpstreamMalformed));
        },
    };
    Ok(
        Some(
            ApiRoute {
                owner: string_of(parts[0].as_slice()),
                name: string_of(parts[1].as_slice()),
                family,
                number,
            },
        ),
    )
}

// ------------------------------------------------------------ web routes

/// The object a web link's fragment names.
#[derive(Debug, Clone, Copy, PartialEq, Eq, Structural)]
pub enum WebFragment {
    ConversationComment(u64),
    Review(u64),
    ReviewComment(u64),
}

/// A fragment's id: a `u64`, and positive.
pub open spec fn fragment_id(text: Seq<char>) -> Result<u64, ErrorReason> {
    match parse_u64_spec(text) {
        None => Err(ErrorReason::UpstreamMalformed),
        Some(id) => if id == 0 {
            Err(ErrorReason::UpstreamIdentityMismatch)
        } else {
            Ok(id)
        },
    }
}

/// The object a fragment names: `issuecomment-<id>`,
/// `pullrequestreview-<id>` or `discussion_r<id>`; any other fragment names
/// none.
pub open spec fn fragment_spec(f: Seq<char>) -> Result<Option<WebFragment>, ErrorReason> {
    match strip_prefix_seq(f, "issuecomment-"@) {
        Some(v) => match fragment_id(v) {
            Ok(id) => Ok(Some(WebFragment::ConversationComment(id))),
            Err(e) => Err(e),
        },
        None => match strip_prefix_seq(f, "pullrequestreview-"@) {
            Some(v) => match fragment_id(v) {
                Ok(id) => Ok(Some(WebFragment::Review(id))),
                Err(e) => Err(e),
            },
            None => match strip_prefix_seq(f, "discussion_r"@) {
                Some(v) => match fragment_id(v) {
                    Ok(id) => Ok(Some(WebFragment::ReviewComment(id))),
                    Err(e) => Err(e),
                },
                None => Ok(None),
            },
        },
    }
}

/// A web object route: (owner, name, pull request number, fragment object).
pub open spec fn web_route_spec(url: UrlParts, web: UrlParts) -> Result<
    Option<(Seq<char>, Seq<char>, u64, Option<WebFragment>)>,
    ErrorReason,
> {
    if !same_origin(url, web) {
        Ok(None)
    } else {
        let parts = split_seq(trim_char(url.path, '/'), '/');
        if parts.len() != 4 || !(parts[2] == "pull"@ || parts[2] == "issues"@) {
            Ok(None)
        } else {
            match parse_u64_spec(parts[3]) {
                None => Err(ErrorReason::UpstreamMalformed),
                Some(n) => if n == 0 {
                    Err(ErrorReason::UpstreamIdentityMismatch)
                } else {
                    match url.fragment {
                        None => Ok(Some((parts[0], parts[1], n, None))),
                        Some(f) => match fragment_spec(f) {
                            Ok(fr) => Ok(Some((parts[0], parts[1], n, fr))),
                            Err(e) => Err(e),
                        },
                    }
                },
            }
        }
    }
}

/// A web route to a pull request or issue page.
#[derive(Debug)]
pub struct WebRoute {
    pub owner: String,
    pub name: String,
    pub number: u64,
    pub fragment: Option<WebFragment>,
}

pub open spec fn route_view(r: Option<WebRoute>) -> Option<(Seq<char>, Seq<char>, u64, Option<WebFragment>)> {
    match r {
        Some(r) => Some((r.owner@, r.name@, r.number, r.fragment)),
        None => None,
    }
}

/// Pins `r` to a spec outcome: the value on success, the reason on failure.
pub open spec fn follows<T, V>(r: Result<T, ResourceError>, view: V, outcome: Result<V, ErrorReason>) -> bool {
    match r {
        Ok(_) => outcome == Ok::<V, ErrorReason>(view),
        Err(e) => outcome matches Err(reason) && is_facts_failure(e, reason),
    }
}

fn fragment_of(text: &[char]) -> (r: Result<Option<WebFragment>, ResourceError>)
    ensures
        follows(r, r->Ok_0, fragment_spec(text@)),
{
    let first = chars_of("issuecomment-");
    let second = chars_of("pullrequestreview-");
    let third = chars_of("discussion_r");
    let (kind, value): (u8, Vec<char>) = match strip_prefix_chars(text, first.as_slice()) {
        Some(v) => (0, v),
        None => match strip_prefix_chars(text, second.as_slice()) {
            Some(v) => (1, v),
            None => match strip_prefix_chars(text, third.as_slice()) {
                Some(v) => (2, v),
                None => {
                    return Ok(None);
                },
            },
        },
    };
    let id = match parse_u64(value.as_slice()) {
        Some(id) => id,
        None => {
            return Err(failure(ErrorReason::UpstreamMalformed));
        },
    };
    if id == 0 {
        return Err(failure(ErrorReason::UpstreamIdentityMismatch));
    }
    Ok(
        Some(
            if kind == 0 {
                WebFragment::ConversationComment(id)
            } else if kind == 1 {
                WebFragment::Review(id)
            } else {
                WebFragment::ReviewComment(id)
            },
        ),
    )
}

/// The web route of `url`, if it is a pull request or issue page of `web`'s
/// origin; its number, and a recognized fragment's id, must be positive
/// `u64`s.
pub fn web_route(url: &ParsedUrl, web: &ParsedUrl) -> (r: Result<Option<WebRoute>, ResourceError>)
    ensures
        follows(r, route_view(r->Ok_0), web_route_spec(url.parts(), web.parts())),
{
    if !origins_match(url, web) {
        return Ok(None);
    }
    let path = chars_of(url.path.as_str());
    let trimmed = trim_char_chars(path.as_slice(), '/');
    let parts = split_chars(trimmed.as_slice(), '/');
    let ghost p = views(parts@);
    if parts.len() != 4 {
        return Ok(None);
    }
    proof {
        assert(p[0] == parts@[0]@ && p[1] == parts@[1]@ && p[2] == parts@[2]@ && p[3] == parts@[3]@);
    }
    if !(chars_eq_str(parts[2].as_slice(), "pull") || chars_eq_str(parts[2].as_slice(), "issues")) {
        return Ok(None);
    }
    let number = match parse_u64(parts[3].as_slice()) {
        Some(n) => n,
        None => {
            return Err(failure(ErrorReason::UpstreamMalformed));
        },
    };
    if number == 0 {
        return Err(failure(ErrorReason::UpstreamIdentityMismatch));
    }
    let fragment = match &url.fragment {
        None => None,
        Some(f) => {
            let text = chars_of(f.as_str());
            fragment_of(text.as_slice())?
        },
    };
    Ok(
        Some(
            WebRoute {
                owner: string_of(parts[0].as_slice()),
                name: string_of(parts[1].as_slice()),
                number,
                fragment,
            },
        ),
    )
}

// ------------------------------------------------------------ record links

/// Owner and name equal this repository's up to ASCII case.
pub open spec fn names_repository(owner: Seq<char>, name: Seq<char>, repository: GithubRepositoryIdentity) -> bool {
    eq_ignore_case(owner, repository.owner@) && eq_ignore_case(name, repository.repository@)
}

fn names_repository_exec(owner: &str, name: &str, repository: &GithubRepositoryIdentity) -> (b: bool)
    ensures
        b == names_repository(owner@, name@, *repository),
{
    same_str_ignore_case(owner, repository.owner.as_str()) && same_str_ignore_case(
        name,
        repository.repository.as_str(),
    )
}

/// What an optional web link says: nothing when absent or not a URL; else it
/// must be a clean link of the web origin, and a recognized page route must
/// name this repository and pull request; its fragment's object, if any.
pub open spec fn web_link_spec(
    link: Option<Seq<char>>,
    repository: GithubRepositoryIdentity,
    number: u64,
    web: UrlParts,
) -> Result<Option<WebFragment>, ErrorReason> {
    match link {
        None => Ok(None),
        Some(v) => match url_parse(v) {
            None => Ok(None),
            Some(u) => if !spec_clean_authority(u, web) {
                Err(ErrorReason::UpstreamIdentityMismatch)
            } else {
                match web_route_spec(u, web) {
                    Err(e) => Err(e),
                    Ok(None) => Ok(None),
                    Ok(Some((o, n, k, fr))) => if !names_repository(o, n, repository) || k != number {
                        Err(ErrorReason::UpstreamIdentityMismatch)
                    } else {
                        Ok(fr)
                    },
                }
            },
        },
    }
}

pub fn validate_optional_web_link(
    link: &Presence<String>,
    repository: &GithubRepositoryIdentity,
    number: u64,
    web: &ParsedUrl,
) -> (r: Result<Option<WebFragment>, ResourceError>)
    ensures
        follows(r, r->Ok_0, web_link_spec(present_text(link), *repository, number, web.parts())),
{
    let value = match link.value() {
        Some(v) => v,
        None => {
            return Ok(None);
        },
    };
    let parsed = match parse_url(value.as_str()) {
        Some(p) => p,
        None => {
            return Ok(None);
        },
    };
    if !clean_authority(&parsed, web) {
        return Err(failure(ErrorReason::UpstreamIdentityMismatch));
    }
    let route = match web_route(&parsed, web)? {
        Some(route) => route,
        None => {
            return Ok(None);
        },
    };
    if !names_repository_exec(route.owner.as_str(), route.name.as_str(), repository) || route.number
        != number {
        return Err(failure(ErrorReason::UpstreamIdentityMismatch));
    }
    Ok(route.fragment)
}

/// What an optional conversation-comment link says: nothing when absent or
/// not a URL; else a clean link of its authority (the API for the API link,
/// else the web), whose recognized route names this comment.
pub open spec fn comment_link_spec(
    link: Option<Seq<char>>,
    repository: GithubRepositoryIdentity,
    number: u64,
    comment_id: u64,
    api: UrlParts,
    web: UrlParts,
    api_link: bool,
) -> Option<ErrorReason> {
    match link {
        None => None,
        Some(v) => match url_parse(v) {
            None => None,
            Some(u) => if !spec_clean_authority(
                u,
                if api_link {
                    api
                } else {
                    web
                },
            ) {
                Some(ErrorReason::UpstreamIdentityMismatch)
            } else if api_link {
                match api_route_shape(u.path, api.path) {
                    None => None,
                    Some((o, n, f, t)) => match parse_u64_spec(t) {
                        None => Some(ErrorReason::UpstreamMalformed),
                        Some(id) => if !names_repository(o, n, repository) || f != "issues/comments"@
                            || id != comment_id {
                            Some(ErrorReason::UpstreamIdentityMismatch)
                        } else {
                            None
                        },
                    },
                }
            } else {
                match web_route_spec(u, web) {
                    Err(e) => Some(e),
                    Ok(None) => None,
                    Ok(Some((o, n, k, fr))) => if !names_repository(o, n, repository) || k != number || (
                    fr is Some && fr != Some(WebFragment::ConversationComment(comment_id))) {
                        Some(ErrorReason::UpstreamIdentityMismatch)
                    } else {
                        None
                    },
                }
            },
        },
    }
}

fn names_comment(fragment: Option<WebFragment>, comment_id: u64) -> (b: bool)
    ensures
        b == (fragment is None || fragment == Some(WebFragment::ConversationComment(comment_id))),
{
    match fragment {
        None => true,
        Some(WebFragment::ConversationComment(id)) => id == comment_id,
        Some(_) => false,
    }
}

pub fn validate_optional_comment_link(
    link: &Presence<String>,
    repository: &GithubRepositoryIdentity,
    number: u64,
    comment_id: u64,
    api: &ParsedUrl,
    web: &ParsedUrl,
    api_link: bool,
) -> (r: Result<(), ResourceError>)
    ensures
        fails_with(
            r,
            comment_link_spec(present_text(link), *repository, number, comment_id, api.parts(), web.parts(), api_link),
        ),
{
    let value = match link.value() {
        Some(v) => v,
        None => {
            return Ok(());
        },
    };
    let parsed = match parse_url(value.as_str()) {
        Some(p) => p,
        None => {
            return Ok(());
        },
    };
    let expected = if api_link {
        api
    } else {
        web
    };
    if !clean_authority(&parsed, expected) {
        return Err(failure(ErrorReason::UpstreamIdentityMismatch));
    }
    if api_link {
        match api_route(&parsed, api)? {
            Some(route) => {
                let family = chars_of(route.family.as_str());
                if !names_repository_exec(route.owner.as_str(), route.name.as_str(), repository)
                    || !chars_eq_str(family.as_slice(), "issues/comments") || route.number != comment_id {
                    return Err(failure(ErrorReason::UpstreamIdentityMismatch));
                }
            },
            None => {},
        }
    } else {
        match web_route(&parsed, web)? {
            Some(route) => {
                if !names_repository_exec(route.owner.as_str(), route.name.as_str(), repository)
                    || route.number != number || !names_comment(route.fragment, comment_id) {
                    return Err(failure(ErrorReason::UpstreamIdentityMismatch));
                }
            },
            None => {},
        }
    }
    Ok(())
}

/// How a record's identity check ends.
pub enum Verdict {
    Accepted,
    Failed(ErrorReason),
    /// The record names another pull request's object.
    Foreign,
}

/// `r` ends as `v` says; a foreign record with `message`.
pub open spec fn ends_as(r: Result<(), ResourceError>, v: Verdict, message: Seq<char>) -> bool {
    match v {
        Verdict::Accepted => r is Ok,
        Verdict::Failed(reason) => r matches Err(e) && is_facts_failure(e, reason),
        Verdict::Foreign => r matches Err(e) && is_foreign_record(e, message),
    }
}

/// The links of a conversation comment: it must carry its id (the addressed
/// one, when one was), and an issue link of the API's own authority whose
/// route is an `issues` object; that object must be this repository's pull
/// request; its own API and web links must then name this comment.
pub open spec fn comment_links_spec(
    repository: GithubRepositoryIdentity,
    number: u64,
    comment_id: Option<u64>,
    observed_id: Option<u64>,
    issue_url: Option<Seq<char>>,
    url: Option<Seq<char>>,
    html_url: Option<Seq<char>>,
    api: UrlParts,
    web: UrlParts,
) -> Verdict {
    match observed_id {
        None => Verdict::Failed(ErrorReason::UpstreamMalformed),
        Some(o) => if comment_id matches Some(c) && c != o {
            Verdict::Failed(ErrorReason::UpstreamIdentityMismatch)
        } else {
            let id = match comment_id {
                Some(c) => c,
                None => o,
            };
            match issue_url {
                None => Verdict::Failed(ErrorReason::UpstreamIdentityMismatch),
                Some(v) => match url_parse(v) {
                    None => Verdict::Failed(ErrorReason::UpstreamIdentityMismatch),
                    Some(issue) => if !spec_clean_authority(issue, api) {
                        Verdict::Failed(ErrorReason::UpstreamIdentityMismatch)
                    } else {
                        match api_route_shape(issue.path, api.path) {
                            None => Verdict::Failed(ErrorReason::UpstreamIdentityMismatch),
                            Some((ow, n, f, t)) => match parse_u64_spec(t) {
                                None => Verdict::Failed(ErrorReason::UpstreamMalformed),
                                Some(k) => if !names_repository(ow, n, repository) || f != "issues"@ || k
                                    != number {
                                    Verdict::Foreign
                                } else {
                                    match comment_link_spec(url, repository, number, id, api, web, true) {
                                        Some(e) => Verdict::Failed(e),
                                        None => match comment_link_spec(
                                            html_url,
                                            repository,
                                            number,
                                            id,
                                            api,
                                            web,
                                            false,
                                        ) {
                                            Some(e) => Verdict::Failed(e),
                                            None => Verdict::Accepted,
                                        },
                                    }
                                },
                            },
                        }
                    },
                },
            }
        },
    }
}

/// Checks the links of a conversation comment read under pull request
/// `number`, addressed by `comment_id` when the read named one.
pub fn validate_comment_links(
    repository: &GithubRepositoryIdentity,
    number: u64,
    comment_id: Option<u64>,
    observed_id: Option<u64>,
    issue_url: &Presence<String>,
    url: &Presence<String>,
    html_url: &Presence<String>,
    api: &ParsedUrl,
    web: &ParsedUrl,
) -> (r: Result<(), ResourceError>)
    ensures
        ends_as(
            r,
            comment_links_spec(
                *repository,
                number,
                comment_id,
                observed_id,
                present_text(issue_url),
                present_text(url),
                present_text(html_url),
                api.parts(),
                web.parts(),
            ),
            "GitHub comment does not belong to the addressed pull request"@,
        ),
{
    let observed = match observed_id {
        Some(o) => o,
        None => {
            return Err(failure(ErrorReason::UpstreamMalformed));
        },
    };
    let id = match comment_id {
        Some(c) => {
            if c != observed {
                return Err(failure(ErrorReason::UpstreamIdentityMismatch));
            }
            c
        },
        None => observed,
    };
    let issue = match issue_url.value() {
        Some(v) => v,
        None => {
            return Err(failure(ErrorReason::UpstreamIdentityMismatch));
        },
    };
    let issue = match parse_url(issue.as_str()) {
        Some(p) => p,
        None => {
            return Err(failure(ErrorReason::UpstreamIdentityMismatch));
        },
    };
    if !clean_authority(&issue, api) {
        return Err(failure(ErrorReason::UpstreamIdentityMismatch));
    }
    let route = match api_route(&issue, api)? {
        Some(route) => route,
        None => {
            return Err(failure(ErrorReason::UpstreamIdentityMismatch));
        },
    };
    let family = chars_of(route.family.as_str());
    if !names_repository_exec(route.owner.as_str(), route.name.as_str(), repository) || !chars_eq_str(
        family.as_slice(),
        "issues",
    ) || route.number != number {
        return Err(foreign_record("GitHub comment does not belong to the addressed pull request"));
    }
    validate_optional_comment_link(url, repository, number, id, api, web, true)?;
    validate_optional_comment_link(html_url, repository, number, id, api, web, false)?;
    Ok(())
}

// ------------------------------------------------------------ account links

/// The non-empty segments, in order.
pub open spec fn non_empty(s: Seq<Seq<char>>) -> Seq<Seq<char>>
    decreases s.len(),
{
    if s.len() == 0 {
        s
    } else if s[0].len() == 0 {
        non_empty(s.drop_first())
    } else {
        seq![s[0]] + non_empty(s.drop_first())
    }
}

/// The segments after `base`, when `observed` begins with `base`'s segments
/// as spelled, up to ASCII case.
pub open spec fn after_base(observed: Seq<Seq<char>>, base: Seq<Seq<char>>) -> Option<Seq<Seq<char>>>
    decreases base.len(),
{
    if base.len() == 0 {
        Some(observed)
    } else if observed.len() == 0 || !eq_ignore_case(observed[0], base[0]) {
        None
    } else {
        after_base(observed.drop_first(), base.drop_first())
    }
}

/// Whether `observed` is exactly `route`, each segment compared decoded and
/// up to ASCII case; a segment with a malformed escape, once reached, fails.
pub open spec fn route_tail(observed: Seq<Seq<char>>, route: Seq<Seq<char>>) -> Result<bool, ErrorReason>
    decreases route.len(),
{
    if route.len() == 0 {
        Ok(observed.len() == 0)
    } else if observed.len() == 0 {
        Ok(false)
    } else {
        match decoded_segment(observed[0]) {
            None => Err(ErrorReason::UpstreamMalformed),
            Some(d) => if eq_ignore_case(d, route[0]) {
                route_tail(observed.drop_first(), route.drop_first())
            } else {
                Ok(false)
            },
        }
    }
}

/// Whether `url`'s path is `authority`'s own path prefix followed by
/// exactly `route`.
pub open spec fn route_matches_spec(url: UrlParts, authority: UrlParts, route: Seq<Seq<char>>) -> Result<
    bool,
    ErrorReason,
> {
    match (url.segments(), authority.segments()) {
        (Some(o), Some(b)) => match after_base(o, non_empty(b)) {
            None => Ok(false),
            Some(rest) => route_tail(rest, route),
        },
        _ => Ok(false),
    }
}

pub fn route_matches(url: &ParsedUrl, authority: &ParsedUrl, route: &[String]) -> (r: Result<
    bool,
    ResourceError,
>)
    ensures
        follows(r, r->Ok_0, route_matches_spec(url.parts(), authority.parts(), segment_views(route@))),
{
    let observed = match url.path_segments() {
        Some(o) => o,
        None => {
            return Ok(false);
        },
    };
    let base = match authority.path_segments() {
        Some(b) => b,
        None => {
            return Ok(false);
        },
    };
    let ghost o = segment_views(observed@);
    let ghost b = segment_views(base@);
    let ghost rt = segment_views(route@);
    let mut i: usize = 0;
    let mut j: usize = 0;
    proof {
        assert(o.skip(0) =~= o);
        assert(b.skip(0) =~= b);
    }
    while i < base.len()
        invariant
            i <= base@.len(),
            j <= observed@.len(),
            o == segment_views(observed@),
            b == segment_views(base@),
            url.parts().segments() == Some(o),
            authority.parts().segments() == Some(b),
            after_base(o, non_empty(b)) == after_base(o.skip(j as int), non_empty(b.skip(i as int))),
        decreases base@.len() - i,
    {
        let ghost bs = b.skip(i as int);
        let ghost os = o.skip(j as int);
        proof {
            assert(bs[0] == base@[i as int]@);
            assert(bs.drop_first() =~= b.skip(i + 1));
        }
        if is_empty_str(base[i].as_str()) {
            i = i + 1;
        } else {
            proof {
                assert(non_empty(bs)[0] == bs[0]);
                assert(non_empty(bs).drop_first() =~= non_empty(bs.drop_first()));
            }
            if j >= observed.len() {
                proof {
                    assert(os.len() == 0);
                }
                return Ok(false);
            }
            proof {
                assert(os[0] == observed@[j as int]@);
                assert(os.drop_first() =~= o.skip(j + 1));
            }
            if !same_str_ignore_case(observed[j].as_str(), base[i].as_str()) {
                return Ok(false);
            }
            i = i + 1;
            j = j + 1;
        }
    }
    proof {
        assert(b.skip(i as int) =~= Seq::<Seq<char>>::empty());
        assert(rt.skip(0) =~= rt);
    }
    let mut m: usize = 0;
    while m < route.len()
        invariant
            m <= route@.len(),
            j <= observed@.len(),
            o == segment_views(observed@),
            rt == segment_views(route@),
            route_matches_spec(url.parts(), authority.parts(), rt) == route_tail(o.skip(j as int), rt.skip(m as int)),
        decreases route@.len() - m,
    {
        let ghost os = o.skip(j as int);
        let ghost rs = rt.skip(m as int);
        if j >= observed.len() {
            return Ok(false);
        }
        proof {
            assert(os[0] == observed@[j as int]@);
            assert(rs[0] == route@[m as int]@);
            assert(os.drop_first() =~= o.skip(j + 1));
            assert(rs.drop_first() =~= rt.skip(m + 1));
        }
        let decoded = decode_segment(observed[j].as_str())?;
        if !same_str_ignore_case(decoded.as_str(), route[m].as_str()) {
            return Ok(false);
        }
        m = m + 1;
        j = j + 1;
    }
    proof {
        assert(rt.skip(m as int) =~= Seq::<Seq<char>>::empty());
    }
    Ok(j == observed.len())
}

pub open spec fn route_views(routes: Seq<Vec<String>>) -> Seq<Seq<Seq<char>>> {
    routes.map_values(|r: Vec<String>| segment_views(r@))
}

/// The first of `routes` that `url` matches decides; a malformed segment met
/// first fails.
pub open spec fn routes_spec(url: UrlParts, authority: UrlParts, routes: Seq<Seq<Seq<char>>>) -> Result<
    bool,
    ErrorReason,
>
    decreases routes.len(),
{
    if routes.len() == 0 {
        Ok(false)
    } else {
        match route_matches_spec(url, authority, routes[0]) {
            Err(e) => Err(e),
            Ok(true) => Ok(true),
            Ok(false) => routes_spec(url, authority, routes.drop_first()),
        }
    }
}

/// An account link is accepted only when it follows one of its routes.
pub open spec fn route_verdict(found: Result<bool, ErrorReason>) -> Option<ErrorReason> {
    match found {
        Err(e) => Some(e),
        Ok(true) => None,
        Ok(false) => Some(ErrorReason::UpstreamIdentityMismatch),
    }
}

/// What an account link says: nothing when absent; else it must parse, be a
/// clean link of `authority` without query or fragment, and follow one of
/// the account's own `routes`.
pub open spec fn account_link_spec(link: Option<Seq<char>>, authority: UrlParts, routes: Seq<Seq<Seq<char>>>) -> Option<
    ErrorReason,
> {
    match link {
        None => None,
        Some(v) => match url_parse(v) {
            None => Some(ErrorReason::UpstreamMalformed),
            Some(u) => if !spec_clean_authority(u, authority) || u.query_text is Some || u.fragment is Some {
                Some(ErrorReason::UpstreamIdentityMismatch)
            } else {
                    route_verdict(routes_spec(u, authority, routes))
            },
        },
    }
}

pub fn validate_account_link(link: &Presence<String>, authority: &ParsedUrl, routes: &[Vec<String>]) -> (r: Result<
    (),
    ResourceError,
>)
    ensures
        fails_with(r, account_link_spec(present_text(link), authority.parts(), route_views(routes@))),
{
    let value = match link.value() {
        Some(v) => v,
        None => {
            return Ok(());
        },
    };
    let parsed = match parse_url(value.as_str()) {
        Some(p) => p,
        None => {
            return Err(failure(ErrorReason::UpstreamMalformed));
        },
    };
    if !clean_authority(&parsed, authority) || parsed.query_text.is_some() || parsed.fragment.is_some() {
        return Err(failure(ErrorReason::UpstreamIdentityMismatch));
    }
    let ghost all = route_views(routes@);
    let mut k: usize = 0;
    proof {
        assert(all.skip(0) =~= all);
    }
    while k < routes.len()
        invariant
            k <= routes@.len(),
            all == route_views(routes@),
            account_link_spec(present_text(link), authority.parts(), all) == route_verdict(
                routes_spec(parsed.parts(), authority.parts(), all.skip(k as int)),
            ),
        decreases routes@.len() - k,
    {
        proof {
            assert(all.skip(k as int)[0] == segment_views(routes@[k as int]@));
            assert(all.skip(k as int).drop_first() =~= all.skip(k + 1));
        }
        if route_matches(&parsed, authority, routes[k].as_slice())? {
            return Ok(());
        }
        k = k + 1;
    }
    Err(failure(ErrorReason::UpstreamIdentityMismatch))
}

/// An account as a record carries it: its login and its two links.
#[derive(Debug)]
pub struct Actor {
    pub login: Presence<String>,
    pub url: Presence<String>,
    pub html_url: Presence<String>,
}

/// A GitHub App's login `<slug>[bot]`: its non-empty slug.
pub open spec fn bot_slug(login: Seq<char>) -> Option<Seq<char>> {
    let b = "[bot]"@;
    if login.len() > b.len() && login.skip(login.len() - b.len()) == b {
        Some(login.take(login.len() - b.len()))
    } else {
        None
    }
}

fn bot_slug_exec(login: &str) -> (r: Option<String>)
    ensures
        match r {
            Some(s) => bot_slug(login@) == Some(s@),
            None => bot_slug(login@) is None,
        },
{
    let l = chars_of(login);
    let b = chars_of("[bot]");
    if l.len() <= b.len() {
        return None;
    }
    let cut = l.len() - b.len();
    let tail = sub_chars(l.as_slice(), cut, l.len());
    proof {
        assert(tail@ =~= login@.skip(cut as int));
    }
    if !same_chars(tail.as_slice(), b.as_slice()) {
        return None;
    }
    let slug = sub_chars(l.as_slice(), 0, cut);
    proof {
        assert(slug@ =~= login@.take(cut as int));
    }
    Some(string_of(slug.as_slice()))
}

/// The routes an account's web link may follow: its login, and for an app
/// account also `apps/<slug>`.
pub open spec fn web_account_routes(login: Seq<char>) -> Seq<Seq<Seq<char>>> {
    match bot_slug(login) {
        Some(slug) => seq![seq![login], seq!["apps"@, slug]],
        None => seq![seq![login]],
    }
}

/// What an account says: nothing when absent; else it must carry a login
/// naming one account, an API link following `users/<login>`, and a web
/// link following one of its web routes.
pub open spec fn account_spec(account: &Presence<Actor>, api: UrlParts, web: UrlParts) -> Option<ErrorReason> {
    match account {
        Presence::Present(a) => match &a.login {
            Presence::Present(l) => if l@.len() == 0 || l@ == "."@ || l@ == ".."@ {
                Some(ErrorReason::UpstreamMalformed)
            } else {
                match account_link_spec(present_text(&a.url), api, seq![seq!["users"@, l@]]) {
                    Some(e) => Some(e),
                    None => account_link_spec(present_text(&a.html_url), web, web_account_routes(l@)),
                }
            },
            _ => Some(ErrorReason::UpstreamMalformed),
        },
        _ => None,
    }
}

pub fn validate_account(account: &Presence<Actor>, api: &ParsedUrl, web: &ParsedUrl) -> (r: Result<
    (),
    ResourceError,
>)
    ensures
        fails_with(r, account_spec(account, api.parts(), web.parts())),
{
    let account = match account.value() {
        Some(a) => a,
        None => {
            return Ok(());
        },
    };
    let login = required(&account.login)?;
    require_login(login.as_str())?;
    let users = vec![vec![owned("users"), owned(login.as_str())]];
    proof {
        assert(route_views(users@) =~= seq![seq!["users"@, login@]]) by {
            assert(segment_views(users@[0]@) =~= seq!["users"@, login@]);
        }
    }
    validate_account_link(&account.url, api, users.as_slice())?;
    let routes = match bot_slug_exec(login.as_str()) {
        Some(slug) => {
            let v = vec![vec![owned(login.as_str())], vec![owned("apps"), slug]];
            proof {
                assert(segment_views(v@[0]@) =~= seq![login@]);
                assert(segment_views(v@[1]@) =~= seq!["apps"@, bot_slug(login@)->0]);
                assert(route_views(v@) =~= web_account_routes(login@));
            }
            v
        },
        None => {
            let v = vec![vec![owned(login.as_str())]];
            proof {
                assert(segment_views(v@[0]@) =~= seq![login@]);
                assert(route_views(v@) =~= web_account_routes(login@));
            }
            v
        },
    };
    validate_account_link(&account.html_url, web, routes.as_slice())
}

// ------------------------------------------------------------ expected URLs

/// The URL `relative` names below `base`, parsed.
pub open spec fn joined(base: UrlParts, relative: Seq<char>) -> Option<UrlParts> {
    match url_join(base.text, relative) {
        Some(t) => url_parse(t),
        None => None,
    }
}

fn join_parsed(base: &ParsedUrl, relative: &str) -> (r: Result<ParsedUrl, ResourceError>)
    ensures
        match joined(base.parts(), relative@) {
            Some(p) => r matches Ok(u) && u.parts() == p,
            None => r matches Err(e) && is_facts_failure(e, ErrorReason::UpstreamMalformed),
        },
{
    let text = match join_url(base.text.as_str(), relative) {
        Some(t) => t,
        None => {
            return Err(failure(ErrorReason::UpstreamMalformed));
        },
    };
    match parse_url(text.as_str()) {
        Some(u) => Ok(u),
        None => Err(failure(ErrorReason::UpstreamMalformed)),
    }
}

/// `repos/<owner>/<name>/<suffix>`.
pub open spec fn object_path(repository: GithubRepositoryIdentity, suffix: Seq<char>) -> Seq<char> {
    "repos/"@ + repository.owner@ + "/"@ + repository.repository@ + "/"@ + suffix
}

/// The deployment's own object URL for `suffix` below
/// `repos/<owner>/<name>/`.
pub fn expected_object_url(api: &ParsedUrl, repository: &GithubRepositoryIdentity, suffix: &str) -> (r: Result<
    ParsedUrl,
    ResourceError,
>)
    ensures
        match joined(api.parts(), object_path(*repository, suffix@)) {
            Some(p) => r matches Ok(u) && u.parts() == p,
            None => r matches Err(e) && is_facts_failure(e, ErrorReason::UpstreamMalformed),
        },
{
    let mut relative = owned("repos/");
    push_str(&mut relative, repository.owner.as_str());
    push_str(&mut relative, "/");
    push_str(&mut relative, repository.repository.as_str());
    push_str(&mut relative, "/");
    push_str(&mut relative, suffix);
    join_parsed(api, relative.as_str())
}

/// `<owner>/<name>/commit/<sha>`.
pub open spec fn commit_page_path(repository: GithubRepositoryIdentity, sha: Seq<char>) -> Seq<char> {
    repository.spec_text() + "/commit/"@ + sha
}

/// The web page of commit `sha` in this repository.
pub fn expected_web_commit_url(web: &ParsedUrl, repository: &GithubRepositoryIdentity, sha: &str) -> (r: Result<
    ParsedUrl,
    ResourceError,
>)
    ensures
        match joined(web.parts(), commit_page_path(*repository, sha@)) {
            Some(p) => r matches Ok(u) && u.parts() == p,
            None => r matches Err(e) && is_facts_failure(e, ErrorReason::UpstreamMalformed),
        },
{
    let mut relative = repository.as_string();
    push_str(&mut relative, "/commit/");
    push_str(&mut relative, sha);
    join_parsed(web, relative.as_str())
}

} // verus!
