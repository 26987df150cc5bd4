//! GitHub acquisition: the requests this source sends, the URLs of its
//! endpoints and collection pages, and the decisions of a conditional fetch
//! against the session cache.
use vstd::prelude::*;
use url::Url;
use crate::error::{ErrorCategory, ErrorDetails, ErrorReason, LimitDetail, AcquisitionLimitKind, ResourceError};
use crate::github::{parse_url, pair_views, url_join, url_parse, GithubRepositoryIdentity, ParsedUrl, UrlParts};
use crate::identity::object_path;
use crate::link::{observation_error, BodyObservation};
use crate::http::{admits, HttpReadBudget};
use crate::request::{header_refusal, with_header_spec, HttpMethod, HttpRequest, RedirectBehavior, RequestView};
use crate::resource::PAGE_SIZE;
use crate::text::{decimal, decimal_string, owned, push_str};

verus! {

broadcast use vstd::string::group_string_axioms;

// ------------------------------------------------------------ requests

/// A refusal or the request built so far.
pub type Built = Result<RequestView, (ErrorCategory, Seq<char>)>;

pub open spec fn built(r: Result<HttpRequest, ResourceError>) -> Built {
    match r {
        Ok(q) => Ok(q@),
        Err(e) => Err((e.category, e.message@)),
    }
}

/// `r` is the request or refusal `b` describes; refusals carry no details.
pub open spec fn builds(r: Result<HttpRequest, ResourceError>, b: Built) -> bool {
    built(r) == b && (r matches Err(e) ==> e.details is None)
}

/// `b` with header `name: value` added, or the first refusal.
pub open spec fn then_header(b: Built, name: Seq<char>, value: Seq<char>) -> Built {
    match b {
        Err(e) => Err(e),
        Ok(v) => match header_refusal(v, name, value) {
            Some(e) => Err(e),
            None => Ok(with_header_spec(v, name, value)),
        },
    }
}

/// The three headers every GitHub request carries.
pub open spec fn github_headers(b: Built, accept: Seq<char>) -> Built {
    then_header(
        then_header(then_header(b, "Accept"@, accept), "User-Agent"@, "resourcefs/1.0"@),
        "X-GitHub-Api-Version"@,
        "2022-11-28"@,
    )
}

pub open spec fn get_view(url: UrlParts) -> RequestView {
    RequestView {
        url,
        method: HttpMethod::Get,
        redirect: RedirectBehavior::FollowReads,
        body: None,
        headers: Seq::empty(),
        header_bytes: 0,
    }
}

/// A read of `url`, revalidated against `etag` when one is cached.
pub open spec fn spec_github_request(url: UrlParts, accept: Seq<char>, etag: Option<Seq<char>>) -> Built {
    let base = github_headers(Ok(get_view(url)), accept);
    match etag {
        Some(t) => then_header(base, "If-None-Match"@, t),
        None => base,
    }
}

fn add_header(r: Result<HttpRequest, ResourceError>, name: &str, value: &str) -> (out: Result<
    HttpRequest,
    ResourceError,
>)
    ensures
        (r matches Err(e) ==> e.details is None) ==> builds(out, then_header(built(r), name@, value@)),
{
    match r {
        Err(e) => Err(e),
        Ok(q) => q.with_header(name, value),
    }
}

/// Adds the headers every GitHub request carries.
pub fn request_with_github_headers(request: HttpRequest, accept: &str) -> (r: Result<HttpRequest, ResourceError>)
    ensures
        builds(r, github_headers(Ok(request@), accept@)),
{
    let r = add_header(Ok(request), "Accept", accept);
    let r = add_header(r, "User-Agent", "resourcefs/1.0");
    add_header(r, "X-GitHub-Api-Version", "2022-11-28")
}

/// A GitHub read of `url` accepting `accept`, conditional on `etag`.
pub fn github_request(url: ParsedUrl, accept: &str, etag: Option<&str>) -> (r: Result<HttpRequest, ResourceError>)
    ensures
        builds(
            r,
            spec_github_request(
                url.parts(),
                accept@,
                match etag {
                    Some(t) => Some(t@),
                    None => None,
                },
            ),
        ),
{
    let base = request_with_github_headers(HttpRequest::get(url), accept);
    match etag {
        Some(t) => add_header(base, "If-None-Match", t),
        None => base,
    }
}

// ------------------------------------------------------------ URLs

pub open spec fn is_endpoint_error(e: ResourceError) -> bool {
    e.category == ErrorCategory::InvalidReference && e.message@ == "GitHub API endpoint could not be constructed"@
        && e.details is None
}

/// The API URL of `suffix` below the repository: the API base joined with
/// `repos/<owner>/<name>/<suffix>`.
pub open spec fn spec_endpoint(api: UrlParts, repository: GithubRepositoryIdentity, suffix: Seq<char>) -> Option<
    UrlParts,
> {
    match url_join(api.text, object_path(repository, suffix)) {
        Some(t) => url_parse(t),
        None => None,
    }
}

/// The API URL of `suffix` below the repository.
pub fn endpoint(api: &ParsedUrl, repository: &GithubRepositoryIdentity, suffix: &str) -> (r: Result<
    ParsedUrl,
    ResourceError,
>)
    ensures
        match spec_endpoint(api.parts(), *repository, suffix@) {
            Some(p) => r matches Ok(u) && u.parts() == p,
            None => r matches Err(e) && is_endpoint_error(e),
        },
{
    let mut relative = owned("repos/");
    push_str(&mut relative, repository.owner.as_str());
    push_str(&mut relative, "/");
    push_str(&mut relative, repository.repository.as_str());
    push_str(&mut relative, "/");
    push_str(&mut relative, suffix);
    let joined = match crate::github::join_url(api.text.as_str(), relative.as_str()) {
        Some(t) => t,
        None => {
            return Err(endpoint_error());
        },
    };
    match parse_url(joined.as_str()) {
        Some(u) => Ok(u),
        None => Err(endpoint_error()),
    }
}

fn endpoint_error() -> (e: ResourceError)
    ensures
        is_endpoint_error(e),
{
    ResourceError::new(ErrorCategory::InvalidReference, "GitHub API endpoint could not be constructed")
}

/// The serialization of the URL `text` parses to once each pair is appended
/// to its query, in order, by `form_urlencoded`'s `append_pair`.
pub uninterp spec fn url_with_pairs(text: Seq<char>, pairs: Seq<(Seq<char>, Seq<char>)>) -> Option<Seq<char>>;

/// Parses `text` with `url::Url::parse` and appends `pairs` to its query with
/// `Url::query_pairs_mut().extend_pairs`, giving the serialization. Appending
/// cannot fail, so a result comes exactly when `text` parses; the text itself
/// is only named.
#[verifier::external_body]
fn append_query_pairs(text: &str, pairs: &[(String, String)]) -> (r: Option<String>)
    ensures
        match r {
            Some(s) => url_with_pairs(text@, pair_views(pairs@)) == Some(s@),
            None => url_with_pairs(text@, pair_views(pairs@)) is None,
        },
        r is Some <==> url_parse(text@) is Some,
{
    let mut url = Url::parse(text).ok()?;
    url.query_pairs_mut().extend_pairs(pairs.iter());
    Some(url.as_str().to_owned())
}

/// The query of one page: the collection's parameters, the page size and
/// the page number.
pub open spec fn page_pairs(parameters: Seq<(Seq<char>, Seq<char>)>, page: u64) -> Seq<(Seq<char>, Seq<char>)> {
    parameters.push(("per_page"@, decimal(PAGE_SIZE as nat))).push(("page"@, decimal(page as nat)))
}

/// The URL of one upstream page of a collection, at the fixed page size.
pub open spec fn spec_page_url(
    api: UrlParts,
    repository: GithubRepositoryIdentity,
    suffix: Seq<char>,
    parameters: Seq<(Seq<char>, Seq<char>)>,
    page: u64,
) -> Option<UrlParts> {
    match spec_endpoint(api, repository, suffix) {
        None => None,
        Some(e) => match url_with_pairs(e.text, page_pairs(parameters, page)) {
            Some(t) => url_parse(t),
            None => None,
        },
    }
}

/// The query of a repository collection: every state, most recently
/// updated first.
pub fn collection_query() -> (q: Vec<(String, String)>)
    ensures
        pair_views(q@) == seq![("state"@, "all"@), ("sort"@, "updated"@), ("direction"@, "desc"@)],
{
    let q = vec![
        (owned("state"), owned("all")),
        (owned("sort"), owned("updated")),
        (owned("direction"), owned("desc")),
    ];
    proof {
        assert(pair_views(q@) =~= seq![("state"@, "all"@), ("sort"@, "updated"@), ("direction"@, "desc"@)]);
    }
    q
}

/// The URL of one upstream page of a collection.
pub fn page_url(
    api: &ParsedUrl,
    repository: &GithubRepositoryIdentity,
    suffix: &str,
    parameters: &[(String, String)],
    page: u64,
) -> (r: Result<ParsedUrl, ResourceError>)
    ensures
        match spec_page_url(api.parts(), *repository, suffix@, pair_views(parameters@), page) {
            Some(p) => r matches Ok(u) && u.parts() == p,
            None => r matches Err(e) && is_endpoint_error(e),
        },
{
    let base = endpoint(api, repository, suffix)?;
    let mut pairs: Vec<(String, String)> = Vec::new();
    let mut i: usize = 0;
    while i < parameters.len()
        invariant
            i <= parameters@.len(),
            pairs@.len() == i,
            forall|k: int| 0 <= k < i ==> (#[trigger] pairs@[k]).0@ == parameters@[k].0@ && pairs@[k].1@
                == parameters@[k].1@,
        decreases parameters@.len() - i,
    {
        pairs.push((owned(parameters[i].0.as_str()), owned(parameters[i].1.as_str())));
        i = i + 1;
    }
    pairs.push((owned("per_page"), decimal_string(PAGE_SIZE)));
    pairs.push((owned("page"), decimal_string(page)));
    proof {
        assert(pair_views(pairs@) =~= page_pairs(pair_views(parameters@), page));
    }
    let text = match append_query_pairs(base.text.as_str(), pairs.as_slice()) {
        Some(t) => t,
        None => {
            return Err(endpoint_error());
        },
    };
    match parse_url(text.as_str()) {
        Some(u) => Ok(u),
        None => Err(endpoint_error()),
    }
}

/// The session-cache key of a read: the media type it accepts, a line
/// break, and the URL.
pub fn cache_key_text(url: &ParsedUrl, accept: &str) -> (k: String)
    ensures
        k@ == accept@ + "\n"@ + url.text@,
{
    let mut k = owned(accept);
    push_str(&mut k, "\n");
    push_str(&mut k, url.text.as_str());
    k
}

// ------------------------------------------------------------ conditional fetch

/// A cached validator whose request could not be built: a header-size
/// refusal drops the cached entry and the read goes on unconditionally
/// (`Ok`); any other refusal ends the read.
pub fn validator_refusal(error: ResourceError) -> (r: Result<(), ResourceError>)
    ensures
        error.category == ErrorCategory::LimitExceeded ==> r is Ok,
        error.category != ErrorCategory::LimitExceeded ==> (r matches Err(e) && e == error),
{
    match error.category {
        ErrorCategory::LimitExceeded => Ok(()),
        _ => Err(error),
    }
}

pub open spec fn is_invalidated_read(e: ResourceError, controlled: bool) -> bool {
    e.category == ErrorCategory::SourceUnavailable && e.message@
        == "GitHub read was invalidated by a concurrent mutation; retry the read"@ && e.details == if controlled {
        Some(ErrorDetails::new_spec(ErrorReason::UpstreamUnavailable))
    } else {
        None
    }
}

pub open spec fn is_uncached_not_modified(e: ResourceError, controlled: bool) -> bool {
    e.category == ErrorCategory::SourceUnavailable && e.message@
        == "GitHub returned 304 without a session cache entry"@ && e.details == if controlled {
        Some(ErrorDetails::new_spec(ErrorReason::UpstreamMalformed))
    } else {
        None
    }
}

/// Whether a `304 Not Modified` may be served from the cached entry: only
/// when no mutation has moved the cache generation since the entry was read
/// and there is an entry to serve.
pub fn revalidation(current_generation: u64, read_generation: u64, cached: bool, controlled: bool) -> (r: Result<
    (),
    ResourceError,
>)
    ensures
        current_generation != read_generation ==> (r matches Err(e) && is_invalidated_read(e, controlled)),
        current_generation == read_generation && !cached ==> (r matches Err(e) && is_uncached_not_modified(
            e,
            controlled,
        )),
        current_generation == read_generation && cached ==> r is Ok,
{
    if current_generation != read_generation {
        return Err(
            observation_error(
                ResourceError::new(
                    ErrorCategory::SourceUnavailable,
                    "GitHub read was invalidated by a concurrent mutation; retry the read",
                ),
                controlled,
                ErrorReason::UpstreamUnavailable,
            ),
        );
    }
    if !cached {
        return Err(
            observation_error(
                crate::github::malformed_upstream("GitHub returned 304 without a session cache entry"),
                controlled,
                ErrorReason::UpstreamMalformed,
            ),
        );
    }
    Ok(())
}

/// The refusal of a response cut at the HTTP body ceiling. A controlled
/// read names the ceiling so the caller can lower what it asks for.
pub fn truncated_refusal(controlled: bool, response_ceiling: usize) -> (e: ResourceError)
    ensures
        e.category == ErrorCategory::LimitExceeded,
        e.message@ == "GitHub response exceeds the bounded HTTP body ceiling"@,
        e.details == if controlled {
            Some(
                ErrorDetails {
                    limit: Some(
                        LimitDetail {
                            kind: AcquisitionLimitKind::ResponseBodyBytes,
                            bound: response_ceiling as u64,
                            observed: None,
                        },
                    ),
                    ..ErrorDetails::new_spec(ErrorReason::LimitExceeded)
                },
            )
        } else {
            None
        },
{
    let refusal = ResourceError::new(
        ErrorCategory::LimitExceeded,
        "GitHub response exceeds the bounded HTTP body ceiling",
    );
    if controlled {
        let mut details = ErrorDetails::new(ErrorReason::LimitExceeded);
        details.limit = Some(
            LimitDetail { kind: AcquisitionLimitKind::ResponseBodyBytes, bound: response_ceiling as u64, observed: None },
        );
        refusal.with_details(details)
    } else {
        refusal
    }
}

/// What follows a cache write: a size refusal is no read failure, but the
/// stale entry under the key must be dropped (`Ok(true)`) so a later `304`
/// cannot revive it; any other refusal fails the read.
pub fn after_cache_put(put: Result<(), ResourceError>) -> (r: Result<bool, ResourceError>)
    ensures
        match put {
            Ok(_) => r == Ok::<bool, ResourceError>(false),
            Err(e) => if e.category == ErrorCategory::LimitExceeded {
                r == Ok::<bool, ResourceError>(true)
            } else {
                r == Err::<bool, ResourceError>(e)
            },
        },
{
    match put {
        Ok(()) => Ok(false),
        Err(error) => match error.category {
            ErrorCategory::LimitExceeded => Ok(true),
            _ => Err(error),
        },
    }
}

/// A session-cache entry for one read: the body, its entity tag, the link
/// it was served with and, when it was kept, the observation of its body.
#[derive(Debug)]
pub struct CachedEntry {
    pub body: Vec<u8>,
    pub etag: String,
    pub link: Option<String>,
    pub observation: Option<BodyObservation>,
}

/// What a conditional read does with the response it got.
#[derive(Debug)]
pub enum FetchDecision {
    /// `304 Not Modified`: serve the cached body and link with their
    /// observation; the response is the revalidation.
    ServeCached { body: Vec<u8>, link: Option<String>, observation: BodyObservation },
    /// A fresh body with an entity tag: serve it with `link` and store it.
    Store { link: Option<String> },
    /// A fresh body without one: serve it with `link` and evict any entry
    /// under its key, so a later `304` cannot revive what it replaced.
    Evict { link: Option<String> },
    /// The read fails.
    Refuse(ResourceError),
}

/// The observation an entry stands for when it kept none: only its entity
/// tag is known.
pub open spec fn is_legacy_observation(o: BodyObservation, etag: Seq<char>) -> bool {
    &&& o.status is None
    &&& o.etag matches Some(t) && t@ == etag
    &&& o.last_modified is None
    &&& o.date is None
    &&& o.selected_api_version is None
    &&& o.observed_at_unix_ms is None
}

pub open spec fn is_truncated_refusal(e: ResourceError, controlled: bool, ceiling: usize) -> bool {
    &&& e.category == ErrorCategory::LimitExceeded
    &&& e.message@ == "GitHub response exceeds the bounded HTTP body ceiling"@
    &&& e.details == if controlled {
        Some(
            ErrorDetails {
                limit: Some(
                    LimitDetail { kind: AcquisitionLimitKind::ResponseBodyBytes, bound: ceiling as u64, observed: None },
                ),
                ..ErrorDetails::new_spec(ErrorReason::LimitExceeded)
            },
        )
    } else {
        None
    }
}

/// One conditional read's decision once the response is in. A `304` is
/// served from the cache only when no mutation moved the cache generation
/// and an entry is there. Any other answer must pass `status_check` (the
/// status classification), must not have been cut at the body ceiling and
/// must carry a readable `link`; it is then stored when it has an entity
/// tag and evicts the entry otherwise.
pub fn controlled_step(
    status: u16,
    status_check: Result<(), ResourceError>,
    truncated: bool,
    etag: Option<&str>,
    link: Result<Option<String>, ResourceError>,
    cached: Option<CachedEntry>,
    same_generation: bool,
    controlled: bool,
    ceiling: usize,
) -> (d: FetchDecision)
    ensures
        status == 304 ==> {
            &&& !same_generation ==> (d matches FetchDecision::Refuse(e) && is_invalidated_read(e, controlled))
            &&& same_generation && cached is None ==> (d matches FetchDecision::Refuse(e) && is_uncached_not_modified(
                e,
                controlled,
            ))
            &&& same_generation && cached is Some ==> (d matches FetchDecision::ServeCached {
                body,
                link: l,
                observation,
            } && body@ == cached->0.body@ && l == cached->0.link && match cached->0.observation {
                Some(o) => observation == o,
                None => is_legacy_observation(observation, cached->0.etag@),
            })
        },
        status != 304 ==> match status_check {
            Err(e) => d == FetchDecision::Refuse(e),
            Ok(_) => if truncated {
                d matches FetchDecision::Refuse(e) && is_truncated_refusal(e, controlled, ceiling)
            } else {
                match link {
                    Err(e) => d matches FetchDecision::Refuse(f) && f.category == e.category && f.message@
                        == e.message@ && f.details == if controlled {
                        Some(ErrorDetails::new_spec(ErrorReason::UpstreamMalformed))
                    } else {
                        e.details
                    },
                    Ok(l) => if etag is Some {
                        d == FetchDecision::Store { link: l }
                    } else {
                        d == FetchDecision::Evict { link: l }
                    },
                }
            },
        },
{
    if status == 304 {
        if let Err(e) = revalidation(if same_generation { 0 } else { 1 }, 0, cached.is_some(), controlled) {
            return FetchDecision::Refuse(e);
        }
        match cached {
            Some(entry) => {
                let observation = match entry.observation {
                    Some(o) => o,
                    None => BodyObservation::legacy(entry.etag.as_str()),
                };
                return FetchDecision::ServeCached { body: entry.body, link: entry.link, observation };
            },
            None => {
                return FetchDecision::Refuse(
                    observation_error(
                        crate::github::malformed_upstream("GitHub returned 304 without a session cache entry"),
                        controlled,
                        ErrorReason::UpstreamMalformed,
                    ),
                );
            },
        }
    }
    if let Err(e) = status_check {
        return FetchDecision::Refuse(e);
    }
    if truncated {
        return FetchDecision::Refuse(truncated_refusal(controlled, ceiling));
    }
    let link = match link {
        Ok(l) => l,
        Err(e) => {
            return FetchDecision::Refuse(observation_error(e, controlled, ErrorReason::UpstreamMalformed));
        },
    };
    match etag {
        Some(_) => FetchDecision::Store { link },
        None => FetchDecision::Evict { link },
    }
}

/// Charges a controlled read's budget for what its decision accepts: the
/// cached body it serves, the fresh body it keeps, or one byte past the
/// ceiling of a body cut there (`truncated_refusal`). A budget refusal takes
/// the place of the decision; a read that accepts nothing charges nothing.
pub fn admit_decision(budget: &mut HttpReadBudget, decision: FetchDecision, truncated_refusal: bool, body_len: usize) -> (r:
    FetchDecision)
    requires
        old(budget).wf(),
    ensures
        final(budget).wf(),
        ({
            let bytes: usize = match decision {
                FetchDecision::ServeCached { body, .. } => body@.len() as usize,
                FetchDecision::Refuse(_) => if body_len == usize::MAX {
                    usize::MAX
                } else {
                    (body_len + 1) as usize
                },
                _ => body_len,
            };
            if decision is Refuse && !truncated_refusal {
                *final(budget) == *old(budget) && r == decision
            } else {
                ||| admits(*old(budget), *final(budget), bytes, Ok(())) && r == decision
                ||| r matches FetchDecision::Refuse(e) && admits(*old(budget), *final(budget), bytes, Err(e))
            }
        }),
{
    let bytes: usize = match &decision {
        FetchDecision::ServeCached { body, .. } => body.len(),
        FetchDecision::Refuse(_) => body_len.saturating_add(1),
        _ => body_len,
    };
    match &decision {
        FetchDecision::Refuse(_) => {
            if !truncated_refusal {
                return decision;
            }
        },
        _ => {},
    }
    match budget.admit_body(bytes) {
        Ok(()) => decision,
        Err(e) => FetchDecision::Refuse(e),
    }
}

} // verus!
