//! GitHub mutations: which Fields and Creation Targets accept writes, what a
//! creation document must say, how an upstream mutation response is judged,
//! and whether a failed mutation left the upstream state known.
use vstd::prelude::*;
use crate::error::{is_refusal, ErrorCategory, ResourceError};
use crate::frontmatter::{
    field_views, frontmatter_spec, is_document_error, parse_frontmatter, FieldValue, FrontmatterValue,
};
use crate::github::{
    is_upstream_error, issue_identity_error, malformed_upstream, parent_refusal, parse_url,
    pull_identity_error, url_parse, validate_issue_identity, validate_parent, validate_pull_identity,
    GithubRepositoryIdentity,
};
use crate::github_wire::{ConversationComment, Issue, PullRequest};
use crate::http::HttpFetchFailure;
use crate::render::{comment, comment_text};
use crate::resource::{identity_refusal, IssueResource, PullRequestResource};
use crate::text::{
    chars_eq_ignore_case, chars_eq_str, chars_of, decimal, eq_ignore_case, is_blank, is_blank_chars,
    owned, parse_u64, parse_u64_spec, push_decimal, push_str,
};

verus! {

broadcast use vstd::string::group_string_axioms;

// ---------------------------------------------------------------- failures

/// A failed mutation commit: `Conclusive` when the upstream state is known
/// not to have changed, `Unknown` when it may have.
#[derive(Debug)]
pub enum MutationCommitFailure {
    Conclusive(ResourceError),
    Unknown(ResourceError),
}

/// `f` reports a refusal of `category` and `message`, conclusive unless
/// `unknown`.
pub open spec fn failure_is(f: MutationCommitFailure, unknown: bool, category: ErrorCategory, message: Seq<char>) -> bool {
    match f {
        MutationCommitFailure::Conclusive(e) => !unknown && e.category == category && e.message@ == message,
        MutationCommitFailure::Unknown(e) => unknown && e.category == category && e.message@ == message,
    }
}

/// A transport failure of a mutation is unknown exactly when the attempt
/// may have reached the upstream.
pub fn map_http_mutation_failure(failure: HttpFetchFailure) -> (f: MutationCommitFailure)
    ensures
        f == if failure.unknown_outcome {
            MutationCommitFailure::Unknown(failure.error)
        } else {
            MutationCommitFailure::Conclusive(failure.error)
        },
{
    let unknown = failure.is_unknown_outcome();
    let error = failure.into_error();
    if unknown {
        MutationCommitFailure::Unknown(error)
    } else {
        MutationCommitFailure::Conclusive(error)
    }
}

/// What a non-expected mutation status means.
pub open spec fn mutation_status_error(status: u16, limited: bool) -> (ErrorCategory, Seq<char>) {
    if 200 <= status <= 299 {
        (ErrorCategory::SourceUnavailable, "GitHub mutation returned unexpected success status "@ + decimal(status as nat))
    } else if 300 <= status <= 399 {
        (ErrorCategory::SourceUnavailable, "GitHub mutation redirect was not followed"@)
    } else if status == 400 || status == 422 {
        (ErrorCategory::InvalidReference, "GitHub rejected the mutation input"@)
    } else if status == 401 {
        (ErrorCategory::PermissionDenied, "GitHub rejected the configured credential"@)
    } else if status == 403 && limited {
        (ErrorCategory::SourceUnavailable, "GitHub rate limit is exhausted"@)
    } else if status == 403 {
        (ErrorCategory::PermissionDenied, "GitHub denied the requested mutation"@)
    } else if status == 404 || status == 410 {
        (ErrorCategory::NotFound, "GitHub mutation target was not found or is access-hidden"@)
    } else if status == 409 {
        (ErrorCategory::VersionConflict, "GitHub rejected the mutation because upstream state conflicts"@)
    } else if status == 429 {
        (ErrorCategory::SourceUnavailable, "GitHub rate limit is exhausted"@)
    } else if 500 <= status <= 599 {
        (
            ErrorCategory::SourceUnavailable,
            "GitHub mutation outcome is unknown after an upstream server failure; reconcile upstream state"@,
        )
    } else {
        (ErrorCategory::SourceUnavailable, "GitHub mutation returned HTTP status "@ + decimal(status as nat))
    }
}

/// How a mutation response is judged: `None` accepts it, else whether the
/// failure leaves the outcome unknown, and the refusal.
pub open spec fn mutation_outcome(
    status: u16,
    truncated: bool,
    limited: bool,
    expected: u16,
    sent: bool,
) -> Option<(bool, ErrorCategory, Seq<char>)> {
    if status == expected {
        if truncated {
            Some(
                (
                    sent,
                    ErrorCategory::SourceUnavailable,
                    "GitHub mutation response exceeds the bounded HTTP body ceiling; reconcile upstream state"@,
                ),
            )
        } else {
            None
        }
    } else {
        let (c, m) = mutation_status_error(status, limited);
        Some((sent && (status >= 500 || (200 <= status <= 299)), c, m))
    }
}

/// Law: a mutation answered with a client-error status it did not expect
/// fails conclusively, whether or not it was sent, and the status alone
/// (with the rate-limit signal for 403) decides the category: 409 is a
/// version conflict; 400 and 422 are bad input; 401 and an unlimited 403
/// are denied permission; 404 and 410 are not found; 429 and a limited 403
/// leave the source unavailable.
pub proof fn lemma_client_errors_are_conclusive(
    status: u16,
    truncated: bool,
    limited: bool,
    expected: u16,
    sent: bool,
)
    requires
        400 <= status <= 499,
        status != expected,
    ensures
        mutation_outcome(status, truncated, limited, expected, sent) matches Some((unknown, category, _)) && !unknown
            && (status == 409 ==> category == ErrorCategory::VersionConflict)
            && (status == 400 || status == 422 ==> category == ErrorCategory::InvalidReference)
            && (status == 401 || (status == 403 && !limited) ==> category == ErrorCategory::PermissionDenied)
            && (status == 404 || status == 410 ==> category == ErrorCategory::NotFound)
            && (status == 429 || (status == 403 && limited) ==> category == ErrorCategory::SourceUnavailable)
            && (category == ErrorCategory::VersionConflict <==> status == 409),
{
}

/// Law: a sent mutation answered by a server failure or by an unexpected
/// success status leaves the outcome unknown; unsent, it is conclusive. A
/// server failure is never a version conflict.
pub proof fn lemma_server_failures_leave_the_outcome_unknown(
    status: u16,
    truncated: bool,
    limited: bool,
    expected: u16,
    sent: bool,
)
    requires
        500 <= status <= 599 || 200 <= status <= 299,
        status != expected,
    ensures
        mutation_outcome(status, truncated, limited, expected, sent) matches Some((unknown, category, _))
            && unknown == sent && category == ErrorCategory::SourceUnavailable,
{
}

/// Law: the expected status succeeds exactly when its body arrived whole;
/// a truncated one leaves the source unavailable, the outcome unknown
/// exactly when the mutation was sent.
pub proof fn lemma_expected_status_succeeds_when_whole(status: u16, truncated: bool, limited: bool, sent: bool)
    ensures
        (mutation_outcome(status, truncated, limited, status, sent) is None) == !truncated,
        truncated ==> (mutation_outcome(status, truncated, limited, status, sent) matches Some((unknown, category, _))
            && unknown == sent && category == ErrorCategory::SourceUnavailable),
{
}

/// Law: an unexpected redirect is never followed: it fails conclusively,
/// sent or not, with the source unavailable.
pub proof fn lemma_redirects_are_conclusive(status: u16, truncated: bool, limited: bool, expected: u16, sent: bool)
    requires
        300 <= status <= 399,
        status != expected,
    ensures
        mutation_outcome(status, truncated, limited, expected, sent) matches Some((unknown, category, _)) && !unknown
            && category == ErrorCategory::SourceUnavailable,
{
}

fn status_error(status: u16, limited: bool) -> (e: ResourceError)
    ensures
        e.category == mutation_status_error(status, limited).0,
        e.message@ == mutation_status_error(status, limited).1,
{
    if 200 <= status && status <= 299 {
        let mut m = owned("GitHub mutation returned unexpected success status ");
        push_decimal(&mut m, status as u64);
        ResourceError::from_string(ErrorCategory::SourceUnavailable, m)
    } else if 300 <= status && status <= 399 {
        ResourceError::new(ErrorCategory::SourceUnavailable, "GitHub mutation redirect was not followed")
    } else if status == 400 || status == 422 {
        ResourceError::new(ErrorCategory::InvalidReference, "GitHub rejected the mutation input")
    } else if status == 401 {
        ResourceError::new(ErrorCategory::PermissionDenied, "GitHub rejected the configured credential")
    } else if status == 403 && limited {
        ResourceError::new(ErrorCategory::SourceUnavailable, "GitHub rate limit is exhausted")
    } else if status == 403 {
        ResourceError::new(ErrorCategory::PermissionDenied, "GitHub denied the requested mutation")
    } else if status == 404 || status == 410 {
        ResourceError::new(ErrorCategory::NotFound, "GitHub mutation target was not found or is access-hidden")
    } else if status == 409 {
        ResourceError::new(
            ErrorCategory::VersionConflict,
            "GitHub rejected the mutation because upstream state conflicts",
        )
    } else if status == 429 {
        ResourceError::new(ErrorCategory::SourceUnavailable, "GitHub rate limit is exhausted")
    } else if 500 <= status && status <= 599 {
        ResourceError::new(
            ErrorCategory::SourceUnavailable,
            "GitHub mutation outcome is unknown after an upstream server failure; reconcile upstream state",
        )
    } else {
        let mut m = owned("GitHub mutation returned HTTP status ");
        push_decimal(&mut m, status as u64);
        ResourceError::from_string(ErrorCategory::SourceUnavailable, m)
    }
}

/// Judges a mutation response of `status`: only `expected` with a whole body
/// succeeds; a sent mutation answered by a server failure, another success
/// status or a truncated success leaves the outcome unknown.
pub fn classify_mutation_response(
    status: u16,
    truncated: bool,
    rate_limit_remaining: Option<u64>,
    retry_after_present: bool,
    expected: u16,
    mutation_sent: bool,
) -> (r: Result<(), MutationCommitFailure>)
    ensures
        match mutation_outcome(
            status,
            truncated,
            rate_limit_remaining == Some(0u64) || retry_after_present,
            expected,
            mutation_sent,
        ) {
            None => r is Ok,
            Some((unknown, category, message)) => r matches Err(f) && failure_is(f, unknown, category, message),
        },
{
    if status == expected {
        if truncated {
            let error = ResourceError::new(
                ErrorCategory::SourceUnavailable,
                "GitHub mutation response exceeds the bounded HTTP body ceiling; reconcile upstream state",
            );
            return Err(
                if mutation_sent {
                    MutationCommitFailure::Unknown(error)
                } else {
                    MutationCommitFailure::Conclusive(error)
                },
            );
        }
        return Ok(());
    }
    let limited = match rate_limit_remaining {
        Some(0) => true,
        _ => retry_after_present,
    };
    let error = status_error(status, limited);
    if mutation_sent && (status >= 500 || (200 <= status && status <= 299)) {
        Err(MutationCommitFailure::Unknown(error))
    } else {
        Err(MutationCommitFailure::Conclusive(error))
    }
}

// ----------------------------------------------------------------- targets

/// What a GitHub reference addresses, as the reference grammar resolves it.
#[derive(Debug, Clone)]
pub enum GithubAddress {
    IssueCollection { repository: GithubRepositoryIdentity },
    IssueNew { repository: GithubRepositoryIdentity },
    IssueItem { repository: GithubRepositoryIdentity, number: u64, resource: IssueResource },
    PullCollection { repository: GithubRepositoryIdentity },
    PullNew { repository: GithubRepositoryIdentity },
    PullItem { repository: GithubRepositoryIdentity, number: u64, resource: PullRequestResource },
    /// An address of another source.
    Other,
}

pub open spec fn unsupported_field_message() -> Seq<char> {
    "GitHub mutation supports only existing title, body, and stable conversation-comment Fields"@
}

pub fn unsupported_field_mutation() -> (e: ResourceError)
    ensures
        is_refusal(e, ErrorCategory::UnsupportedMutation, unsupported_field_message()),
{
    ResourceError::new(
        ErrorCategory::UnsupportedMutation,
        "GitHub mutation supports only existing title, body, and stable conversation-comment Fields",
    )
}

/// The Field a replacement of `address` writes, or why it cannot be one: a
/// selector, a projection other than a title, a body or a conversation
/// comment, or an address outside `issue://` and `pr://`.
pub open spec fn field_target(has_selector: bool, address: GithubAddress) -> Result<
    GithubFieldTarget,
    (ErrorCategory, Seq<char>),
> {
    if has_selector {
        Err(
            (
                ErrorCategory::InvalidReference,
                "GitHub Field mutation requires a canonical reference without a selector"@,
            ),
        )
    } else {
        match address {
            GithubAddress::IssueItem { repository, number, resource } => match resource {
                IssueResource::Title => Ok(GithubFieldTarget::IssueTitle { repository, number }),
                IssueResource::Body => Ok(GithubFieldTarget::IssueBody { repository, number }),
                IssueResource::Comment(id) => Ok(GithubFieldTarget::IssueComment { repository, number, id }),
                _ => Err((ErrorCategory::UnsupportedMutation, unsupported_field_message())),
            },
            GithubAddress::PullItem { repository, number, resource } => match resource {
                PullRequestResource::Title => Ok(GithubFieldTarget::PullTitle { repository, number }),
                PullRequestResource::Body => Ok(GithubFieldTarget::PullBody { repository, number }),
                PullRequestResource::Comment(id) => Ok(GithubFieldTarget::PullComment { repository, number, id }),
                _ => Err((ErrorCategory::UnsupportedMutation, unsupported_field_message())),
            },
            GithubAddress::Other => Err(
                (
                    ErrorCategory::UnsupportedMutation,
                    "GitHub mutation accepts only issue:// or pr:// Field references"@,
                ),
            ),
            _ => Err((ErrorCategory::UnsupportedMutation, unsupported_field_message())),
        }
    }
}

/// The Creation Target a create of `address` writes, or why it is none.
pub open spec fn creation_target(has_selector: bool, address: GithubAddress) -> Result<
    GithubCreationTarget,
    (ErrorCategory, Seq<char>),
> {
    if has_selector {
        Err((ErrorCategory::InvalidReference, "Creation Target writes do not accept projection selectors"@))
    } else {
        match address {
            GithubAddress::IssueNew { repository } => Ok(GithubCreationTarget::Issue { repository }),
            GithubAddress::IssueItem { repository, number, resource: IssueResource::CommentsNew } => Ok(
                GithubCreationTarget::IssueComment { repository, number },
            ),
            GithubAddress::PullNew { repository } => Ok(GithubCreationTarget::Pull { repository }),
            GithubAddress::PullItem { repository, number, resource: PullRequestResource::CommentsNew } => Ok(
                GithubCreationTarget::PullComment { repository, number },
            ),
            _ => Err((ErrorCategory::UnsupportedMutation, unsupported_field_message())),
        }
    }
}

/// `r` is `expected`, its refusals carrying no details.
pub open spec fn parsed_as<T>(r: Result<T, ResourceError>, expected: Result<T, (ErrorCategory, Seq<char>)>) -> bool {
    match expected {
        Ok(t) => r == Ok::<T, ResourceError>(t),
        Err((category, message)) => r matches Err(e) && is_refusal(e, category, message),
    }
}

/// An existing Field a replacement writes.
#[derive(Debug, Clone)]
pub enum GithubFieldTarget {
    IssueTitle { repository: GithubRepositoryIdentity, number: u64 },
    IssueBody { repository: GithubRepositoryIdentity, number: u64 },
    IssueComment { repository: GithubRepositoryIdentity, number: u64, id: u64 },
    PullTitle { repository: GithubRepositoryIdentity, number: u64 },
    PullBody { repository: GithubRepositoryIdentity, number: u64 },
    PullComment { repository: GithubRepositoryIdentity, number: u64, id: u64 },
}

/// A Creation Target a create writes.
#[derive(Debug, Clone)]
pub enum GithubCreationTarget {
    Issue { repository: GithubRepositoryIdentity },
    IssueComment { repository: GithubRepositoryIdentity, number: u64 },
    Pull { repository: GithubRepositoryIdentity },
    PullComment { repository: GithubRepositoryIdentity, number: u64 },
}

impl GithubFieldTarget {
    /// The Field a replacement of `address` writes.
    pub fn parse(has_selector: bool, address: GithubAddress) -> (r: Result<GithubFieldTarget, ResourceError>)
        ensures
            parsed_as(r, field_target(has_selector, address)),
    {
        if has_selector {
            return Err(
                ResourceError::new(
                    ErrorCategory::InvalidReference,
                    "GitHub Field mutation requires a canonical reference without a selector",
                ),
            );
        }
        match address {
            GithubAddress::IssueItem { repository, number, resource } => match resource {
                IssueResource::Title => Ok(GithubFieldTarget::IssueTitle { repository, number }),
                IssueResource::Body => Ok(GithubFieldTarget::IssueBody { repository, number }),
                IssueResource::Comment(id) => Ok(GithubFieldTarget::IssueComment { repository, number, id }),
                _ => Err(unsupported_field_mutation()),
            },
            GithubAddress::PullItem { repository, number, resource } => match resource {
                PullRequestResource::Title => Ok(GithubFieldTarget::PullTitle { repository, number }),
                PullRequestResource::Body => Ok(GithubFieldTarget::PullBody { repository, number }),
                PullRequestResource::Comment(id) => Ok(GithubFieldTarget::PullComment { repository, number, id }),
                _ => Err(unsupported_field_mutation()),
            },
            GithubAddress::Other => Err(
                ResourceError::new(
                    ErrorCategory::UnsupportedMutation,
                    "GitHub mutation accepts only issue:// or pr:// Field references",
                ),
            ),
            _ => Err(unsupported_field_mutation()),
        }
    }

    /// The endpoint, below the repository, a replacement patches.
    pub open spec fn suffix(&self) -> Seq<char> {
        match self {
            GithubFieldTarget::IssueTitle { number, .. } | GithubFieldTarget::IssueBody { number, .. } =>
                "issues/"@ + decimal(*number as nat),
            GithubFieldTarget::IssueComment { id, .. } | GithubFieldTarget::PullComment { id, .. } =>
                "issues/comments/"@ + decimal(*id as nat),
            GithubFieldTarget::PullTitle { number, .. } | GithubFieldTarget::PullBody { number, .. } =>
                "pulls/"@ + decimal(*number as nat),
        }
    }

    pub fn mutation_suffix(&self) -> (s: String)
        ensures
            s@ == self.suffix(),
    {
        match self {
            GithubFieldTarget::IssueTitle { number, .. } | GithubFieldTarget::IssueBody { number, .. } => {
                let mut s = owned("issues/");
                push_decimal(&mut s, *number);
                s
            },
            GithubFieldTarget::IssueComment { id, .. } | GithubFieldTarget::PullComment { id, .. } => {
                let mut s = owned("issues/comments/");
                push_decimal(&mut s, *id);
                s
            },
            GithubFieldTarget::PullTitle { number, .. } | GithubFieldTarget::PullBody { number, .. } => {
                let mut s = owned("pulls/");
                push_decimal(&mut s, *number);
                s
            },
        }
    }

    pub fn repository(&self) -> (r: &GithubRepositoryIdentity)
        ensures
            *r == match self {
                GithubFieldTarget::IssueTitle { repository, .. } => *repository,
                GithubFieldTarget::IssueBody { repository, .. } => *repository,
                GithubFieldTarget::IssueComment { repository, .. } => *repository,
                GithubFieldTarget::PullTitle { repository, .. } => *repository,
                GithubFieldTarget::PullBody { repository, .. } => *repository,
                GithubFieldTarget::PullComment { repository, .. } => *repository,
            },
    {
        match self {
            GithubFieldTarget::IssueTitle { repository, .. } => repository,
            GithubFieldTarget::IssueBody { repository, .. } => repository,
            GithubFieldTarget::IssueComment { repository, .. } => repository,
            GithubFieldTarget::PullTitle { repository, .. } => repository,
            GithubFieldTarget::PullBody { repository, .. } => repository,
            GithubFieldTarget::PullComment { repository, .. } => repository,
        }
    }

    /// Titles and conversation comments must not be blank.
    pub open spec fn forbids_blank(&self) -> bool {
        match self {
            GithubFieldTarget::IssueTitle { .. } | GithubFieldTarget::IssueComment { .. }
            | GithubFieldTarget::PullTitle { .. } | GithubFieldTarget::PullComment { .. } => true,
            _ => false,
        }
    }
}

impl GithubCreationTarget {
    /// The Creation Target a create of `address` writes.
    pub fn parse(has_selector: bool, address: GithubAddress) -> (r: Result<GithubCreationTarget, ResourceError>)
        ensures
            parsed_as(r, creation_target(has_selector, address)),
    {
        if has_selector {
            return Err(
                ResourceError::new(
                    ErrorCategory::InvalidReference,
                    "Creation Target writes do not accept projection selectors",
                ),
            );
        }
        match address {
            GithubAddress::IssueNew { repository } => Ok(GithubCreationTarget::Issue { repository }),
            GithubAddress::IssueItem { repository, number, resource: IssueResource::CommentsNew } => Ok(
                GithubCreationTarget::IssueComment { repository, number },
            ),
            GithubAddress::PullNew { repository } => Ok(GithubCreationTarget::Pull { repository }),
            GithubAddress::PullItem { repository, number, resource: PullRequestResource::CommentsNew } => Ok(
                GithubCreationTarget::PullComment { repository, number },
            ),
            _ => Err(unsupported_field_mutation()),
        }
    }

    /// The collection endpoint, below the repository, a create posts to.
    pub open spec fn suffix(&self) -> Seq<char> {
        match self {
            GithubCreationTarget::Issue { .. } => "issues"@,
            GithubCreationTarget::Pull { .. } => "pulls"@,
            GithubCreationTarget::IssueComment { number, .. } | GithubCreationTarget::PullComment { number, .. } =>
                "issues/"@ + decimal(*number as nat) + "/comments"@,
        }
    }

    pub fn mutation_suffix(&self) -> (s: String)
        ensures
            s@ == self.suffix(),
    {
        match self {
            GithubCreationTarget::Issue { .. } => owned("issues"),
            GithubCreationTarget::Pull { .. } => owned("pulls"),
            GithubCreationTarget::IssueComment { number, .. } | GithubCreationTarget::PullComment { number, .. } => {
                let mut s = owned("issues/");
                push_decimal(&mut s, *number);
                push_str(&mut s, "/comments");
                s
            },
        }
    }

    pub fn repository(&self) -> (r: &GithubRepositoryIdentity)
        ensures
            *r == match self {
                GithubCreationTarget::Issue { repository } => *repository,
                GithubCreationTarget::IssueComment { repository, .. } => *repository,
                GithubCreationTarget::Pull { repository } => *repository,
                GithubCreationTarget::PullComment { repository, .. } => *repository,
            },
    {
        match self {
            GithubCreationTarget::Issue { repository } => repository,
            GithubCreationTarget::IssueComment { repository, .. } => repository,
            GithubCreationTarget::Pull { repository } => repository,
            GithubCreationTarget::PullComment { repository, .. } => repository,
        }
    }
}

/// A replacement text for `target`, refused when a title or comment would
/// become blank.
pub fn validate_replacement(target: &GithubFieldTarget, content: &str) -> (r: Result<(), ResourceError>)
    ensures
        if target.forbids_blank() && is_blank(content@) {
            r matches Err(e) && is_refusal(
                e,
                ErrorCategory::InvalidReference,
                "GitHub titles and conversation comments must not be blank"@,
            )
        } else {
            r is Ok
        },
{
    let blank_forbidden = match target {
        GithubFieldTarget::IssueTitle { .. } | GithubFieldTarget::IssueComment { .. }
        | GithubFieldTarget::PullTitle { .. } | GithubFieldTarget::PullComment { .. } => true,
        _ => false,
    };
    if blank_forbidden && is_blank_chars(chars_of(content).as_slice()) {
        return Err(
            ResourceError::new(
                ErrorCategory::InvalidReference,
                "GitHub titles and conversation comments must not be blank",
            ),
        );
    }
    Ok(())
}

/// Which write a mutation asks for.
#[derive(Debug, Clone, Copy, PartialEq, Eq, Structural)]
pub enum MutationAccess {
    Create,
    Update,
    Delete,
}

/// The write grants of an allowlisted repository.
#[derive(Debug, Clone, Copy, PartialEq, Eq, Structural)]
pub struct RepositoryGrants {
    pub create: bool,
    pub update: bool,
}

/// Whether `access` may replace a Field of a repository whose grants are
/// `grants` (`None` when it is not allowlisted).
pub fn authorize_field_update(grants: Option<RepositoryGrants>, access: MutationAccess) -> (r: Result<(), ResourceError>)
    ensures
        match grants {
            None => r matches Err(e) && is_refusal(
                e,
                ErrorCategory::PermissionDenied,
                "GitHub repository is not present in the readable allowlist"@,
            ),
            Some(g) => match access {
                MutationAccess::Update => if g.update {
                    r is Ok
                } else {
                    r matches Err(e) && is_refusal(
                        e,
                        ErrorCategory::PermissionDenied,
                        "GitHub repository update grant is required for Field replacement"@,
                    )
                },
                MutationAccess::Create => r matches Err(e) && is_refusal(
                    e,
                    ErrorCategory::VersionConflict,
                    "GitHub Field replacement requires ifVersion"@,
                ),
                MutationAccess::Delete => r matches Err(e) && is_refusal(
                    e,
                    ErrorCategory::UnsupportedMutation,
                    "GitHub Field deletion is not supported"@,
                ),
            },
        },
{
    let g = match grants {
        Some(g) => g,
        None => {
            return Err(
                ResourceError::new(
                    ErrorCategory::PermissionDenied,
                    "GitHub repository is not present in the readable allowlist",
                ),
            );
        },
    };
    match access {
        MutationAccess::Update => if g.update {
            Ok(())
        } else {
            Err(
                ResourceError::new(
                    ErrorCategory::PermissionDenied,
                    "GitHub repository update grant is required for Field replacement",
                ),
            )
        },
        MutationAccess::Create => Err(
            ResourceError::new(ErrorCategory::VersionConflict, "GitHub Field replacement requires ifVersion"),
        ),
        MutationAccess::Delete => Err(
            ResourceError::new(ErrorCategory::UnsupportedMutation, "GitHub Field deletion is not supported"),
        ),
    }
}

/// Whether `access` may create under a repository whose grants are
/// `grants`.
pub fn authorize_creation(grants: Option<RepositoryGrants>, access: MutationAccess) -> (r: Result<(), ResourceError>)
    ensures
        match grants {
            None => r matches Err(e) && is_refusal(
                e,
                ErrorCategory::PermissionDenied,
                "GitHub repository is not present in the readable allowlist"@,
            ),
            Some(g) => match access {
                MutationAccess::Create => if g.create {
                    r is Ok
                } else {
                    r matches Err(e) && is_refusal(
                        e,
                        ErrorCategory::PermissionDenied,
                        "GitHub repository create grant is required for Creation Targets"@,
                    )
                },
                _ => r matches Err(e) && is_refusal(
                    e,
                    ErrorCategory::UnsupportedMutation,
                    "GitHub Creation Targets accept create only"@,
                ),
            },
        },
{
    let g = match grants {
        Some(g) => g,
        None => {
            return Err(
                ResourceError::new(
                    ErrorCategory::PermissionDenied,
                    "GitHub repository is not present in the readable allowlist",
                ),
            );
        },
    };
    match access {
        MutationAccess::Create => if g.create {
            Ok(())
        } else {
            Err(
                ResourceError::new(
                    ErrorCategory::PermissionDenied,
                    "GitHub repository create grant is required for Creation Targets",
                ),
            )
        },
        _ => Err(ResourceError::new(ErrorCategory::UnsupportedMutation, "GitHub Creation Targets accept create only")),
    }
}

// -------------------------------------------------------- creation documents

/// What a creation submits.
#[derive(Debug, Clone, PartialEq, Eq)]
pub enum CreationSubmission {
    Issue { title: String, body: String },
    IssueComment { body: String },
    Pull { title: String, head: String, base: String, draft: Option<bool>, body: String },
    PullComment { body: String },
}

/// The texts a creation submits.
pub enum SubmissionView {
    Issue { title: Seq<char>, body: Seq<char> },
    IssueComment { body: Seq<char> },
    Pull { title: Seq<char>, head: Seq<char>, base: Seq<char>, draft: Option<bool>, body: Seq<char> },
    PullComment { body: Seq<char> },
}

impl CreationSubmission {
    pub open spec fn view_submission(self) -> SubmissionView {
        match self {
            CreationSubmission::Issue { title, body } => SubmissionView::Issue { title: title@, body: body@ },
            CreationSubmission::IssueComment { body } => SubmissionView::IssueComment { body: body@ },
            CreationSubmission::Pull { title, head, base, draft, body } => SubmissionView::Pull {
                title: title@,
                head: head@,
                base: base@,
                draft,
                body: body@,
            },
            CreationSubmission::PullComment { body } => SubmissionView::PullComment { body: body@ },
        }
    }
}

/// The value of the field named `key`, if present.
pub open spec fn lookup(fs: Seq<(Seq<char>, FieldValue)>, key: Seq<char>) -> Option<FieldValue>
    decreases fs.len(),
{
    if fs.len() == 0 {
        None
    } else if fs[0].0 == key {
        Some(fs[0].1)
    } else {
        lookup(fs.drop_first(), key)
    }
}

/// A required string field, or the sentence refusing its absence or type.
pub open spec fn take_string_spec(fs: Seq<(Seq<char>, FieldValue)>, key: Seq<char>) -> Result<Seq<char>, Seq<char>> {
    match lookup(fs, key) {
        Some(FieldValue::Text(s)) => Ok(s),
        Some(FieldValue::Flag(_)) => Err("frontmatter field '"@ + key + "' must be a string"@),
        None => Err("frontmatter field '"@ + key + "' is required"@),
    }
}

/// Some field is not one of `allowed`.
pub open spec fn has_unknown_field(fs: Seq<(Seq<char>, FieldValue)>, allowed: Seq<Seq<char>>) -> bool {
    exists|i: int| 0 <= i < fs.len() && !allowed.contains(#[trigger] fs[i].0)
}

pub open spec fn blank_message(label: Seq<char>) -> Seq<char> {
    label + " must not be blank"@
}

pub open spec fn pull_keys() -> Seq<Seq<char>> {
    seq!["title"@, "head"@, "base"@, "draft"@]
}

/// What a creation document for `target` submits, or the sentence refusing
/// it.
pub open spec fn submission_spec(target: GithubCreationTarget, content: Seq<char>) -> Result<SubmissionView, Seq<char>> {
    match target {
        GithubCreationTarget::IssueComment { .. } => if is_blank(content) {
            Err(blank_message("conversation comment"@))
        } else {
            Ok(SubmissionView::IssueComment { body: content })
        },
        GithubCreationTarget::PullComment { .. } => if is_blank(content) {
            Err(blank_message("conversation comment"@))
        } else {
            Ok(SubmissionView::PullComment { body: content })
        },
        GithubCreationTarget::Issue { .. } => match frontmatter_spec(content) {
            Err(m) => Err(m),
            Ok(parsed) => if has_unknown_field(parsed.0, seq!["title"@]) {
                Err("frontmatter contains an unsupported field"@)
            } else {
                match take_string_spec(parsed.0, "title"@) {
                    Err(m) => Err(m),
                    Ok(title) => if is_blank(title) {
                        Err(blank_message("issue title"@))
                    } else {
                        Ok(SubmissionView::Issue { title, body: parsed.1 })
                    },
                }
            },
        },
        GithubCreationTarget::Pull { .. } => match frontmatter_spec(content) {
            Err(m) => Err(m),
            Ok(parsed) => {
                let fs = parsed.0;
                if has_unknown_field(fs, pull_keys()) {
                    Err("frontmatter contains an unsupported field"@)
                } else {
                    match take_string_spec(fs, "title"@) {
                        Err(m) => Err(m),
                        Ok(title) => match take_string_spec(fs, "head"@) {
                            Err(m) => Err(m),
                            Ok(head) => match take_string_spec(fs, "base"@) {
                                Err(m) => Err(m),
                                Ok(base) => if is_blank(title) {
                                    Err(blank_message("pull request title"@))
                                } else if is_blank(head) {
                                    Err(blank_message("pull request head"@))
                                } else if is_blank(base) {
                                    Err(blank_message("pull request base"@))
                                } else {
                                    match lookup(fs, "draft"@) {
                                        None => Ok(
                                            SubmissionView::Pull { title, head, base, draft: None, body: parsed.1 },
                                        ),
                                        Some(FieldValue::Flag(b)) => Ok(
                                            SubmissionView::Pull { title, head, base, draft: Some(b), body: parsed.1 },
                                        ),
                                        Some(FieldValue::Text(_)) => Err(
                                            "pull request frontmatter field 'draft' must be true or false"@,
                                        ),
                                    }
                                },
                            },
                        },
                    }
                }
            },
        },
    }
}

fn find_field(fields: &Vec<(String, FrontmatterValue)>, key: &str) -> (r: Option<FrontmatterValue>)
    ensures
        match lookup(field_views(fields@), key@) {
            Some(v) => r matches Some(x) && x.value() == v,
            None => r is None,
        },
{
    let ghost fs = field_views(fields@);
    proof {
        assert(fs.skip(0) =~= fs);
    }
    let mut i: usize = 0;
    while i < fields.len()
        invariant
            i <= fields@.len(),
            fs == field_views(fields@),
            lookup(fs, key@) == lookup(fs.skip(i as int), key@),
        decreases fields@.len() - i,
    {
        proof {
            assert(fs.skip(i as int)[0] == fs[i as int]);
            assert(fs.skip(i as int).drop_first() =~= fs.skip(i + 1));
        }
        let name = chars_of(fields[i].0.as_str());
        if chars_eq_str(name.as_slice(), key) {
            return Some(fields[i].1.clone_value());
        }
        i = i + 1;
    }
    None
}

impl FrontmatterValue {
    pub fn clone_value(&self) -> (r: FrontmatterValue)
        ensures
            r.value() == self.value(),
    {
        match self {
            FrontmatterValue::String(s) => FrontmatterValue::String(owned(s.as_str())),
            FrontmatterValue::Boolean(b) => FrontmatterValue::Boolean(*b),
        }
    }
}

fn field_message(key: &str, suffix: &str) -> (e: ResourceError)
    ensures
        is_document_error(e, "frontmatter field '"@ + key@ + suffix@),
{
    let mut m = owned("frontmatter field '");
    push_str(&mut m, key);
    push_str(&mut m, suffix);
    ResourceError::from_string(ErrorCategory::InvalidReference, m)
}

/// A required string field of a creation document.
pub fn take_string(fields: &Vec<(String, FrontmatterValue)>, key: &str) -> (r: Result<String, ResourceError>)
    ensures
        match take_string_spec(field_views(fields@), key@) {
            Ok(s) => r matches Ok(x) && x@ == s,
            Err(m) => r matches Err(e) && is_document_error(e, m),
        },
{
    match find_field(fields, key) {
        Some(FrontmatterValue::String(value)) => Ok(value),
        Some(FrontmatterValue::Boolean(_)) => Err(field_message(key, "' must be a string")),
        None => Err(field_message(key, "' is required")),
    }
}

pub open spec fn str_views(v: Seq<&str>) -> Seq<Seq<char>> {
    v.map_values(|s: &str| s@)
}

fn is_allowed(allowed: &[&str], key: &str) -> (b: bool)
    ensures
        b == str_views(allowed@).contains(key@),
{
    let ghost a = str_views(allowed@);
    let k = chars_of(key);
    let mut i: usize = 0;
    while i < allowed.len()
        invariant
            i <= allowed@.len(),
            a == str_views(allowed@),
            k@ == key@,
            forall|m: int| 0 <= m < i ==> #[trigger] a[m] != key@,
        decreases allowed@.len() - i,
    {
        if chars_eq_str(k.as_slice(), allowed[i]) {
            proof {
                assert(a[i as int] == key@);
            }
            return true;
        }
        i = i + 1;
    }
    false
}

/// Refuses a creation document naming a field outside `allowed`.
pub fn reject_unknown_fields(fields: &Vec<(String, FrontmatterValue)>, allowed: &[&str]) -> (r: Result<(), ResourceError>)
    ensures
        if has_unknown_field(field_views(fields@), str_views(allowed@)) {
            r matches Err(e) && is_document_error(e, "frontmatter contains an unsupported field"@)
        } else {
            r is Ok
        },
{
    let ghost fs = field_views(fields@);
    let mut i: usize = 0;
    while i < fields.len()
        invariant
            i <= fields@.len(),
            fs == field_views(fields@),
            forall|m: int| 0 <= m < i ==> str_views(allowed@).contains(#[trigger] fs[m].0),
        decreases fields@.len() - i,
    {
        if !is_allowed(allowed, fields[i].0.as_str()) {
            proof {
                assert(!str_views(allowed@).contains(fs[i as int].0));
            }
            return Err(document_error_owned("frontmatter contains an unsupported field"));
        }
        i = i + 1;
    }
    Ok(())
}

fn document_error_owned(message: &str) -> (e: ResourceError)
    ensures
        is_document_error(e, message@),
{
    ResourceError::new(ErrorCategory::InvalidReference, message)
}

/// Refuses a blank text, naming it by `label`.
pub fn require_non_blank(value: &str, label: &str) -> (r: Result<(), ResourceError>)
    ensures
        if is_blank(value@) {
            r matches Err(e) && is_document_error(e, blank_message(label@))
        } else {
            r is Ok
        },
{
    if is_blank_chars(chars_of(value).as_slice()) {
        let mut m = owned(label);
        push_str(&mut m, " must not be blank");
        return Err(ResourceError::from_string(ErrorCategory::InvalidReference, m));
    }
    Ok(())
}

/// Reads what a creation document submits to `target`.
pub fn parse_creation_submission(target: &GithubCreationTarget, content: &str) -> (r: Result<
    CreationSubmission,
    ResourceError,
>)
    ensures
        match submission_spec(*target, content@) {
            Ok(v) => r matches Ok(s) && s.view_submission() == v,
            Err(m) => r matches Err(e) && is_document_error(e, m),
        },
{
    match target {
        GithubCreationTarget::IssueComment { .. } => {
            require_non_blank(content, "conversation comment")?;
            Ok(CreationSubmission::IssueComment { body: owned(content) })
        },
        GithubCreationTarget::PullComment { .. } => {
            require_non_blank(content, "conversation comment")?;
            Ok(CreationSubmission::PullComment { body: owned(content) })
        },
        GithubCreationTarget::Issue { .. } => {
            let (fields, body) = parse_frontmatter(content)?;
            let allowed: [&str; 1] = ["title"];
            proof {
                assert(str_views(allowed@) =~= seq!["title"@]);
            }
            reject_unknown_fields(&fields, allowed.as_slice())?;
            let title = take_string(&fields, "title")?;
            require_non_blank(title.as_str(), "issue title")?;
            Ok(CreationSubmission::Issue { title, body })
        },
        GithubCreationTarget::Pull { .. } => {
            let (fields, body) = parse_frontmatter(content)?;
            let allowed: [&str; 4] = ["title", "head", "base", "draft"];
            proof {
                assert(str_views(allowed@) =~= pull_keys());
            }
            reject_unknown_fields(&fields, allowed.as_slice())?;
            let title = take_string(&fields, "title")?;
            let head = take_string(&fields, "head")?;
            let base = take_string(&fields, "base")?;
            require_non_blank(title.as_str(), "pull request title")?;
            require_non_blank(head.as_str(), "pull request head")?;
            require_non_blank(base.as_str(), "pull request base")?;
            let draft = match find_field(&fields, "draft") {
                None => None,
                Some(FrontmatterValue::Boolean(value)) => Some(value),
                Some(FrontmatterValue::String(_)) => {
                    return Err(
                        document_error_owned("pull request frontmatter field 'draft' must be true or false"),
                    );
                },
            };
            Ok(CreationSubmission::Pull { title, head, base, draft, body })
        },
    }
}


// ------------------------------------------------------ upstream responses

/// `r` fails as `f` says, or succeeds when `f` is `None`.
pub open spec fn failed_as<T>(r: Result<T, MutationCommitFailure>, f: Option<(bool, ErrorCategory, Seq<char>)>) -> bool {
    match f {
        None => r is Ok,
        Some((u, c, m)) => r matches Err(x) && failure_is(x, u, c, m),
    }
}

/// Why an object's `html_url` does not name `family/number` of
/// `repository` over HTTPS, if it does not.
pub open spec fn object_url_refusal(
    url: Seq<char>,
    repository: GithubRepositoryIdentity,
    family: Seq<char>,
    number: u64,
) -> Option<Seq<char>> {
    match url_parse(url) {
        None => Some("GitHub object URL is malformed"@),
        Some(p) => if p.scheme != "https"@ {
            Some("GitHub object URL must use HTTPS"@)
        } else {
            match p.segments() {
                None => Some("GitHub object URL has no hierarchical path"@),
                Some(s) => if s.len() < 4 {
                    Some("GitHub object URL does not name a repository object"@)
                } else {
                    let n = s.len() as int;
                    match parse_u64_spec(s[n - 1]) {
                        None => Some("GitHub object URL number is invalid"@),
                        Some(actual) => if !eq_ignore_case(s[n - 4], repository.owner@) || !eq_ignore_case(
                            s[n - 3],
                            repository.repository@,
                        ) || s[n - 2] != family || actual != number {
                            Some("GitHub object URL does not match its requested repository identity"@)
                        } else {
                            None
                        },
                    }
                },
            }
        },
    }
}

/// Checks that an object's web URL names the object a mutation addressed.
pub fn validate_object_web_url(
    value: &str,
    repository: &GithubRepositoryIdentity,
    family: &str,
    number: u64,
) -> (r: Result<(), ResourceError>)
    ensures
        match object_url_refusal(value@, *repository, family@, number) {
            None => r is Ok,
            Some(m) => r matches Err(e) && is_upstream_error(e, m),
        },
{
    let url = match parse_url(value) {
        Some(u) => u,
        None => {
            return Err(malformed_upstream("GitHub object URL is malformed"));
        },
    };
    let scheme = chars_of(url.scheme.as_str());
    if !chars_eq_str(scheme.as_slice(), "https") {
        return Err(malformed_upstream("GitHub object URL must use HTTPS"));
    }
    let segments = match url.path_segments() {
        Some(s) => s,
        None => {
            return Err(malformed_upstream("GitHub object URL has no hierarchical path"));
        },
    };
    let n = segments.len();
    if n < 4 {
        return Err(malformed_upstream("GitHub object URL does not name a repository object"));
    }
    let number_text = chars_of(segments[n - 1].as_str());
    let actual = match parse_u64(number_text.as_slice()) {
        Some(a) => a,
        None => {
            return Err(malformed_upstream("GitHub object URL number is invalid"));
        },
    };
    let owner = chars_of(segments[n - 4].as_str());
    let repo = chars_of(segments[n - 3].as_str());
    let actual_family = chars_of(segments[n - 2].as_str());
    let expected_owner = chars_of(repository.owner.as_str());
    let expected_repo = chars_of(repository.repository.as_str());
    proof {
        let s = url.parts().segments()->0;
        assert(s[n - 1] == segments@[n - 1]@);
        assert(s[n - 2] == segments@[n - 2]@);
        assert(s[n - 3] == segments@[n - 3]@);
        assert(s[n - 4] == segments@[n - 4]@);
    }
    if !chars_eq_ignore_case(owner.as_slice(), expected_owner.as_slice()) || !chars_eq_ignore_case(
        repo.as_slice(),
        expected_repo.as_slice(),
    ) || !chars_eq_str(actual_family.as_slice(), family) || actual != number {
        return Err(malformed_upstream("GitHub object URL does not match its requested repository identity"));
    }
    Ok(())
}

pub open spec fn wire_blank_message(field: Seq<char>) -> Seq<char> {
    "GitHub upstream field '"@ + field + "' must not be blank"@
}

/// Refuses a blank required text of an upstream record.
pub fn validate_required_wire_string(value: &str, field: &str) -> (r: Result<(), ResourceError>)
    ensures
        if is_blank(value@) {
            r matches Err(e) && is_upstream_error(e, wire_blank_message(field@))
        } else {
            r is Ok
        },
{
    if is_blank_chars(chars_of(value).as_slice()) {
        let mut m = owned("GitHub upstream field '");
        push_str(&mut m, field);
        push_str(&mut m, "' must not be blank");
        return Err(ResourceError::from_string(ErrorCategory::SourceUnavailable, m));
    }
    Ok(())
}

pub open spec fn invalid_success_message(detail: Seq<char>) -> Seq<char> {
    "GitHub mutation success response is invalid: "@ + detail
}

/// A success response whose content is invalid leaves the mutation's outcome
/// unknown.
pub fn invalid_success_response(error: ResourceError) -> (f: MutationCommitFailure)
    ensures
        failure_is(f, true, ErrorCategory::SourceUnavailable, invalid_success_message(error.message@)),
{
    let mut m = owned("GitHub mutation success response is invalid: ");
    push_str(&mut m, error.message.as_str());
    MutationCommitFailure::Unknown(ResourceError::from_string(ErrorCategory::SourceUnavailable, m))
}

pub fn require_non_blank_success(value: &str, field: &str) -> (r: Result<(), MutationCommitFailure>)
    ensures
        failed_as(
            r,
            if is_blank(value@) {
                Some((true, ErrorCategory::SourceUnavailable, invalid_success_message(wire_blank_message(field@))))
            } else {
                None
            },
        ),
{
    match validate_required_wire_string(value, field) {
        Ok(()) => Ok(()),
        Err(e) => Err(invalid_success_response(e)),
    }
}

pub open spec fn upstream(unknown: bool, m: Seq<char>) -> Option<(bool, ErrorCategory, Seq<char>)> {
    Some((unknown, ErrorCategory::SourceUnavailable, m))
}

/// Why an issue read before a mutation refuses it.
pub open spec fn issue_preflight(issue: Issue, repository: GithubRepositoryIdentity, number: u64) -> Option<
    (bool, ErrorCategory, Seq<char>),
> {
    if issue_identity_error(issue, number) is Some {
        upstream(false, issue_identity_error(issue, number)->0)
    } else if issue.pull_request {
        Some((false, ErrorCategory::NotFound, "GitHub number names a pull request; address it through pr://"@))
    } else if object_url_refusal(issue.html_url@, repository, "issues"@, number) is Some {
        upstream(false, object_url_refusal(issue.html_url@, repository, "issues"@, number)->0)
    } else if is_blank(issue.title@) {
        upstream(false, wire_blank_message("issue.title"@))
    } else {
        None
    }
}

/// Why a pull request read before a mutation refuses it.
pub open spec fn pull_preflight(pull: PullRequest, repository: GithubRepositoryIdentity, number: u64) -> Option<
    (bool, ErrorCategory, Seq<char>),
> {
    if pull_identity_error(pull, number) is Some {
        upstream(false, pull_identity_error(pull, number)->0)
    } else if object_url_refusal(pull.html_url@, repository, "pull"@, number) is Some {
        upstream(false, object_url_refusal(pull.html_url@, repository, "pull"@, number)->0)
    } else if is_blank(pull.title@) {
        upstream(false, wire_blank_message("pull.title"@))
    } else {
        None
    }
}

/// The issue a mutation addresses, checked before anything is written.
pub fn mutation_issue_check(issue: Issue, repository: &GithubRepositoryIdentity, number: u64) -> (r: Result<
    Issue,
    MutationCommitFailure,
>)
    ensures
        failed_as(r, issue_preflight(issue, *repository, number)),
        r is Ok ==> r == Ok::<Issue, MutationCommitFailure>(issue),
{
    if let Err(e) = validate_issue_identity(&issue, number) {
        return Err(MutationCommitFailure::Conclusive(e));
    }
    if issue.pull_request {
        return Err(
            MutationCommitFailure::Conclusive(
                ResourceError::new(
                    ErrorCategory::NotFound,
                    "GitHub number names a pull request; address it through pr://",
                ),
            ),
        );
    }
    if let Err(e) = validate_object_web_url(issue.html_url.as_str(), repository, "issues", number) {
        return Err(MutationCommitFailure::Conclusive(e));
    }
    if let Err(e) = validate_required_wire_string(issue.title.as_str(), "issue.title") {
        return Err(MutationCommitFailure::Conclusive(e));
    }
    Ok(issue)
}

/// The pull request a mutation addresses, checked before anything is
/// written.
pub fn mutation_pull_check(pull: PullRequest, repository: &GithubRepositoryIdentity, number: u64) -> (r: Result<
    PullRequest,
    MutationCommitFailure,
>)
    ensures
        failed_as(r, pull_preflight(pull, *repository, number)),
        r is Ok ==> r == Ok::<PullRequest, MutationCommitFailure>(pull),
{
    if let Err(e) = validate_pull_identity(&pull, number) {
        return Err(MutationCommitFailure::Conclusive(e));
    }
    if let Err(e) = validate_object_web_url(pull.html_url.as_str(), repository, "pull", number) {
        return Err(MutationCommitFailure::Conclusive(e));
    }
    if let Err(e) = validate_required_wire_string(pull.title.as_str(), "pull.title") {
        return Err(MutationCommitFailure::Conclusive(e));
    }
    Ok(pull)
}

/// Why a conversation comment a mutation addresses is refused: its
/// identity, then its parent.
pub open spec fn comment_refusal(
    c: ConversationComment,
    repository: GithubRepositoryIdentity,
    number: u64,
    id: u64,
    unknown: bool,
    mismatch: Seq<char>,
) -> Option<(bool, ErrorCategory, Seq<char>)> {
    match identity_refusal(c.id, id, c.user, "comment.id"@, "comment.user.id"@, mismatch) {
        Some(m) => upstream(unknown, m),
        None => match parent_refusal(c.issue_url@, repository, "issues"@, number) {
            None => None,
            Some((cat, m)) => if unknown {
                Some((true, ErrorCategory::SourceUnavailable, invalid_success_message(m)))
            } else {
                Some((false, cat, m))
            },
        },
    }
}

fn check_comment(
    c: &ConversationComment,
    repository: &GithubRepositoryIdentity,
    number: u64,
    id: u64,
    unknown: bool,
    mismatch: &str,
) -> (r: Result<(), MutationCommitFailure>)
    ensures
        failed_as(r, comment_refusal(*c, *repository, number, id, unknown, mismatch@)),
{
    let fail = |e: ResourceError| -> (f: MutationCommitFailure)
        ensures
            f == if unknown {
                MutationCommitFailure::Unknown(e)
            } else {
                MutationCommitFailure::Conclusive(e)
            },
        {
            if unknown {
                MutationCommitFailure::Unknown(e)
            } else {
                MutationCommitFailure::Conclusive(e)
            }
        };
    if c.id == 0 {
        let mut m = owned("GitHub upstream field '");
        push_str(&mut m, "comment.id");
        push_str(&mut m, "' must be positive");
        proof {
            assert(m@ =~= "GitHub upstream field '"@ + "comment.id"@ + "' must be positive"@);
        }
        return Err(fail(ResourceError::from_string(ErrorCategory::SourceUnavailable, m)));
    }
    if let Err(e) = crate::github::validate_user(&c.user, "comment.user.id") {
        return Err(fail(e));
    }
    if c.id != id {
        return Err(fail(malformed_upstream(mismatch)));
    }
    if let Err(e) = validate_parent(c.issue_url.as_str(), repository, "issues", number) {
        return Err(
            if unknown {
                invalid_success_response(e)
            } else {
                MutationCommitFailure::Conclusive(e)
            },
        );
    }
    Ok(())
}

/// The conversation comment a mutation addresses, checked before anything
/// is written.
pub fn mutation_comment_check(
    c: ConversationComment,
    repository: &GithubRepositoryIdentity,
    number: u64,
    id: u64,
) -> (r: Result<ConversationComment, MutationCommitFailure>)
    ensures
        failed_as(r, comment_refusal(c, *repository, number, id, false, "GitHub comment ID does not match its path"@)),
        r is Ok ==> r == Ok::<ConversationComment, MutationCommitFailure>(c),
{
    check_comment(&c, repository, number, id, false, "GitHub comment ID does not match its path")?;
    Ok(c)
}

/// Which text of an issue or pull request a replacement wrote.
#[derive(Debug, Clone, Copy, PartialEq, Eq, Structural)]
pub enum PatchedText {
    Title,
    Body,
}

pub open spec fn body_or_empty(body: Option<String>) -> Seq<char> {
    match body {
        Some(b) => b@,
        None => Seq::empty(),
    }
}

/// Why a patched issue's response is refused; every refusal leaves the
/// outcome unknown.
pub open spec fn issue_patch_refusal(issue: Issue, repository: GithubRepositoryIdentity, number: u64, text: PatchedText) -> Option<
    (bool, ErrorCategory, Seq<char>),
> {
    if issue_identity_error(issue, number) is Some {
        upstream(true, issue_identity_error(issue, number)->0)
    } else if issue.pull_request {
        upstream(true, "GitHub issue mutation response changed object kind"@)
    } else if object_url_refusal(issue.html_url@, repository, "issues"@, number) is Some {
        upstream(true, invalid_success_message(object_url_refusal(issue.html_url@, repository, "issues"@, number)->0))
    } else if text == PatchedText::Title && is_blank(issue.title@) {
        upstream(true, invalid_success_message(wire_blank_message("issue.title"@)))
    } else {
        None
    }
}

/// The authoritative text and id a patched issue's response reports.
pub fn issue_patch_response(
    issue: Issue,
    repository: &GithubRepositoryIdentity,
    number: u64,
    text: PatchedText,
) -> (r: Result<(String, u64), MutationCommitFailure>)
    ensures
        failed_as(r, issue_patch_refusal(issue, *repository, number, text)),
        r matches Ok(out) ==> out.1 == issue.id && out.0@ == if text == PatchedText::Title {
            issue.title@
        } else {
            body_or_empty(issue.body)
        },
{
    if let Err(e) = validate_issue_identity(&issue, number) {
        return Err(MutationCommitFailure::Unknown(e));
    }
    if issue.pull_request {
        return Err(
            MutationCommitFailure::Unknown(malformed_upstream("GitHub issue mutation response changed object kind")),
        );
    }
    if let Err(e) = validate_object_web_url(issue.html_url.as_str(), repository, "issues", number) {
        return Err(invalid_success_response(e));
    }
    let content = match text {
        PatchedText::Title => {
            require_non_blank_success(issue.title.as_str(), "issue.title")?;
            issue.title
        },
        PatchedText::Body => crate::github::authoritative_body(issue.body),
    };
    Ok((content, issue.id))
}

/// Why a patched pull request's response is refused.
pub open spec fn pull_patch_refusal(pull: PullRequest, repository: GithubRepositoryIdentity, number: u64, text: PatchedText) -> Option<
    (bool, ErrorCategory, Seq<char>),
> {
    if pull_identity_error(pull, number) is Some {
        upstream(true, pull_identity_error(pull, number)->0)
    } else if object_url_refusal(pull.html_url@, repository, "pull"@, number) is Some {
        upstream(true, invalid_success_message(object_url_refusal(pull.html_url@, repository, "pull"@, number)->0))
    } else if text == PatchedText::Title && is_blank(pull.title@) {
        upstream(true, invalid_success_message(wire_blank_message("pull.title"@)))
    } else {
        None
    }
}

/// The authoritative text and id a patched pull request's response reports.
pub fn pull_patch_response(
    pull: PullRequest,
    repository: &GithubRepositoryIdentity,
    number: u64,
    text: PatchedText,
) -> (r: Result<(String, u64), MutationCommitFailure>)
    ensures
        failed_as(r, pull_patch_refusal(pull, *repository, number, text)),
        r matches Ok(out) ==> out.1 == pull.id && out.0@ == if text == PatchedText::Title {
            pull.title@
        } else {
            body_or_empty(pull.body)
        },
{
    if let Err(e) = validate_pull_identity(&pull, number) {
        return Err(MutationCommitFailure::Unknown(e));
    }
    if let Err(e) = validate_object_web_url(pull.html_url.as_str(), repository, "pull", number) {
        return Err(invalid_success_response(e));
    }
    let content = match text {
        PatchedText::Title => {
            require_non_blank_success(pull.title.as_str(), "pull.title")?;
            pull.title
        },
        PatchedText::Body => crate::github::authoritative_body(pull.body),
    };
    Ok((content, pull.id))
}

/// The rendered comment and id a patched comment's response reports.
pub fn comment_patch_response(
    c: ConversationComment,
    repository: &GithubRepositoryIdentity,
    number: u64,
    id: u64,
) -> (r: Result<(String, u64), MutationCommitFailure>)
    ensures
        failed_as(
            r,
            comment_refusal(c, *repository, number, id, true, "GitHub comment mutation response ID does not match its path"@),
        ),
        r matches Ok(out) ==> out.1 == c.id && out.0@ == comment_text(c),
{
    check_comment(&c, repository, number, id, true, "GitHub comment mutation response ID does not match its path")?;
    Ok((comment(&c), c.id))
}

/// Why a created issue's response is refused.
pub open spec fn created_issue_refusal(issue: Issue, repository: GithubRepositoryIdentity) -> Option<
    (bool, ErrorCategory, Seq<char>),
> {
    if issue_identity_error(issue, issue.number) is Some {
        upstream(true, issue_identity_error(issue, issue.number)->0)
    } else if object_url_refusal(issue.html_url@, repository, "issues"@, issue.number) is Some {
        upstream(
            true,
            invalid_success_message(object_url_refusal(issue.html_url@, repository, "issues"@, issue.number)->0),
        )
    } else if issue.pull_request {
        upstream(true, "GitHub issue creation response changed object kind"@)
    } else if is_blank(issue.title@) {
        upstream(true, invalid_success_message(wire_blank_message("issue.title"@)))
    } else {
        None
    }
}

/// The number of the issue a creation made, once its response checks out.
pub fn created_issue(issue: &Issue, repository: &GithubRepositoryIdentity) -> (r: Result<u64, MutationCommitFailure>)
    ensures
        failed_as(r, created_issue_refusal(*issue, *repository)),
        r matches Ok(n) ==> n == issue.number,
{
    if let Err(e) = validate_issue_identity(issue, issue.number) {
        return Err(MutationCommitFailure::Unknown(e));
    }
    if let Err(e) = validate_object_web_url(issue.html_url.as_str(), repository, "issues", issue.number) {
        return Err(invalid_success_response(e));
    }
    if issue.pull_request {
        return Err(
            MutationCommitFailure::Unknown(malformed_upstream("GitHub issue creation response changed object kind")),
        );
    }
    require_non_blank_success(issue.title.as_str(), "issue.title")?;
    Ok(issue.number)
}

/// Why a created pull request's response is refused.
pub open spec fn created_pull_refusal(pull: PullRequest, repository: GithubRepositoryIdentity) -> Option<
    (bool, ErrorCategory, Seq<char>),
> {
    if pull_identity_error(pull, pull.number) is Some {
        upstream(true, pull_identity_error(pull, pull.number)->0)
    } else if object_url_refusal(pull.html_url@, repository, "pull"@, pull.number) is Some {
        upstream(true, invalid_success_message(object_url_refusal(pull.html_url@, repository, "pull"@, pull.number)->0))
    } else if is_blank(pull.title@) {
        upstream(true, invalid_success_message(wire_blank_message("pull.title"@)))
    } else {
        None
    }
}

/// The number of the pull request a creation made.
pub fn created_pull(pull: &PullRequest, repository: &GithubRepositoryIdentity) -> (r: Result<u64, MutationCommitFailure>)
    ensures
        failed_as(r, created_pull_refusal(*pull, *repository)),
        r matches Ok(n) ==> n == pull.number,
{
    if let Err(e) = validate_pull_identity(pull, pull.number) {
        return Err(MutationCommitFailure::Unknown(e));
    }
    if let Err(e) = validate_object_web_url(pull.html_url.as_str(), repository, "pull", pull.number) {
        return Err(invalid_success_response(e));
    }
    require_non_blank_success(pull.title.as_str(), "pull.title")?;
    Ok(pull.number)
}

/// Why a created comment's response is refused: its id and account, then
/// its parent.
pub open spec fn created_comment_refusal(c: ConversationComment, repository: GithubRepositoryIdentity, number: u64) -> Option<
    (bool, ErrorCategory, Seq<char>),
> {
    comment_refusal(c, repository, number, c.id, true, Seq::empty())
}

/// The id of the conversation comment a creation made under `number`.
pub fn created_comment(c: &ConversationComment, repository: &GithubRepositoryIdentity, number: u64) -> (r: Result<
    u64,
    MutationCommitFailure,
>)
    ensures
        failed_as(r, created_comment_refusal(*c, *repository, number)),
        r matches Ok(id) ==> id == c.id,
{
    check_comment(c, repository, number, c.id, true, "")?;
    Ok(c.id)
}

/// A replacement must answer for the object its preflight read.
pub fn check_same_object(response_id: u64, object_id: u64) -> (r: Result<(), MutationCommitFailure>)
    ensures
        failed_as(
            r,
            if response_id != object_id {
                upstream(true, "GitHub mutation response object ID changed after authoritative preflight"@)
            } else {
                None
            },
        ),
{
    if response_id != object_id {
        return Err(
            MutationCommitFailure::Unknown(
                malformed_upstream("GitHub mutation response object ID changed after authoritative preflight"),
            ),
        );
    }
    Ok(())
}

// ----------------------------------------------------------------- writes

/// Whether `address` names a Field this source may replace, given the
/// allowlist grants of its repository (`None` when it is not allowlisted).
/// A reference that names no Field is simply not mutable; a malformed one
/// is refused.
pub fn field_mutability(has_selector: bool, address: GithubAddress, grants: Option<RepositoryGrants>) -> (r: Result<
    bool,
    ResourceError,
>)
    ensures
        match field_target(has_selector, address) {
            Ok(_) => r == Ok::<bool, ResourceError>(grants matches Some(g) && g.update),
            Err((category, message)) => if category == ErrorCategory::UnsupportedMutation {
                r == Ok::<bool, ResourceError>(false)
            } else {
                r matches Err(e) && is_refusal(e, category, message)
            },
        },
{
    match GithubFieldTarget::parse(has_selector, address) {
        Ok(_) => Ok(
            match grants {
                Some(g) => g.update,
                None => false,
            },
        ),
        Err(error) => match error.category {
            ErrorCategory::UnsupportedMutation => Ok(false),
            _ => Err(error),
        },
    }
}

/// How a mutation target is written.
#[derive(Debug, Clone, Copy, PartialEq, Eq, Structural)]
pub enum MutationTargetMode {
    AuthoritativeText,
    CreationTarget,
    AuthoredText,
}

/// Whether `content` is a write this source accepts for the target: a
/// replacement of an existing Field, or a creation document for a Creation
/// Target; authored text is no GitHub mode.
pub open spec fn write_refusal(mode: MutationTargetMode, has_selector: bool, address: GithubAddress, content: Seq<
    char,
>) -> Option<(ErrorCategory, Seq<char>)> {
    match mode {
        MutationTargetMode::AuthoritativeText => match field_target(has_selector, address) {
            Err(e) => Some(e),
            Ok(t) => if t.forbids_blank() && is_blank(content) {
                Some((ErrorCategory::InvalidReference, "GitHub titles and conversation comments must not be blank"@))
            } else {
                None
            },
        },
        MutationTargetMode::CreationTarget => match creation_target(has_selector, address) {
            Err(e) => Some(e),
            Ok(t) => match submission_spec(t, content) {
                Err(m) => Some((ErrorCategory::InvalidReference, m)),
                Ok(_) => None,
            },
        },
        MutationTargetMode::AuthoredText => Some(
            (ErrorCategory::SourceUnavailable, "GitHub Source Adapter received an authored-text target mode"@),
        ),
    }
}

/// Checks a write before it is committed.
pub fn validate_write(mode: MutationTargetMode, has_selector: bool, address: GithubAddress, content: &str) -> (r:
    Result<(), ResourceError>)
    ensures
        match write_refusal(mode, has_selector, address, content@) {
            None => r is Ok,
            Some((category, message)) => r matches Err(e) && is_refusal(e, category, message),
        },
{
    match mode {
        MutationTargetMode::AuthoritativeText => {
            let field = GithubFieldTarget::parse(has_selector, address)?;
            validate_replacement(&field, content)
        },
        MutationTargetMode::CreationTarget => {
            let creation = GithubCreationTarget::parse(has_selector, address)?;
            match parse_creation_submission(&creation, content) {
                Ok(_) => Ok(()),
                Err(e) => Err(e),
            }
        },
        MutationTargetMode::AuthoredText => Err(
            ResourceError::new(
                ErrorCategory::SourceUnavailable,
                "GitHub Source Adapter received an authored-text target mode",
            ),
        ),
    }
}

/// After a committed write the source empties its session cache, so no
/// later read can be answered from what the write replaced. The write has
/// already reached GitHub, so a cache that cannot be emptied leaves the
/// outcome unknown rather than refused.
pub fn after_cache_cleared(cleared: Result<(), ResourceError>) -> (r: Result<(), MutationCommitFailure>)
    ensures
        match cleared {
            Ok(_) => r is Ok,
            Err(e) => r == Err::<(), MutationCommitFailure>(MutationCommitFailure::Unknown(e)),
        },
{
    match cleared {
        Ok(()) => Ok(()),
        Err(e) => Err(MutationCommitFailure::Unknown(e)),
    }
}

/// The method and endpoint suffix a mutation of `address` sends: `POST` to
/// a Creation Target's collection, `PATCH` to an existing Field's object.
pub fn mutation_route(creates: bool, has_selector: bool, address: GithubAddress) -> (r: Result<
    (String, String),
    ResourceError,
>)
    ensures
        creates ==> match creation_target(has_selector, address) {
            Ok(t) => r matches Ok((m, p)) && m@ == "POST"@ && p@ == t.suffix(),
            Err((category, message)) => r matches Err(e) && is_refusal(e, category, message),
        },
        !creates ==> match field_target(has_selector, address) {
            Ok(t) => r matches Ok((m, p)) && m@ == "PATCH"@ && p@ == t.suffix(),
            Err((category, message)) => r matches Err(e) && is_refusal(e, category, message),
        },
{
    if creates {
        let target = GithubCreationTarget::parse(has_selector, address)?;
        Ok((owned("POST"), target.mutation_suffix()))
    } else {
        let target = GithubFieldTarget::parse(has_selector, address)?;
        Ok((owned("PATCH"), target.mutation_suffix()))
    }
}

} // verus!
