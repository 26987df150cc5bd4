//! The typed refusal every adapter operation reports.
use vstd::prelude::*;

verus! {

/// The broad class of a refusal, as callers branch on it.
#[derive(Debug, Clone, Copy, PartialEq, Eq, Structural)]
pub enum ErrorCategory {
    AmbiguousReference,
    Cancelled,
    InvalidPattern,
    InvalidReference,
    LimitExceeded,
    NotFound,
    PermissionDenied,
    SourceUnavailable,
    UnsupportedMutation,
    UnsupportedProjection,
    VersionConflict,
}

impl ErrorCategory {
    /// The stable wire spelling of the category.
    pub open spec fn spec_name(self) -> Seq<char> {
        match self {
            ErrorCategory::AmbiguousReference => "ambiguous_reference"@,
            ErrorCategory::Cancelled => "cancelled"@,
            ErrorCategory::InvalidPattern => "invalid_pattern"@,
            ErrorCategory::InvalidReference => "invalid_reference"@,
            ErrorCategory::LimitExceeded => "limit_exceeded"@,
            ErrorCategory::NotFound => "not_found"@,
            ErrorCategory::PermissionDenied => "permission_denied"@,
            ErrorCategory::SourceUnavailable => "source_unavailable"@,
            ErrorCategory::UnsupportedMutation => "unsupported_mutation"@,
            ErrorCategory::UnsupportedProjection => "unsupported_projection"@,
            ErrorCategory::VersionConflict => "version_conflict"@,
        }
    }

    pub fn as_str(self) -> (s: &'static str)
        ensures
            s@ == self.spec_name(),
    {
        match self {
            ErrorCategory::AmbiguousReference => "ambiguous_reference",
            ErrorCategory::Cancelled => "cancelled",
            ErrorCategory::InvalidPattern => "invalid_pattern",
            ErrorCategory::InvalidReference => "invalid_reference",
            ErrorCategory::LimitExceeded => "limit_exceeded",
            ErrorCategory::NotFound => "not_found",
            ErrorCategory::PermissionDenied => "permission_denied",
            ErrorCategory::SourceUnavailable => "source_unavailable",
            ErrorCategory::UnsupportedMutation => "unsupported_mutation",
            ErrorCategory::UnsupportedProjection => "unsupported_projection",
            ErrorCategory::VersionConflict => "version_conflict",
        }
    }
}

/// The machine-readable cause a controlled read attaches to a refusal.
#[derive(Debug, Clone, Copy, PartialEq, Eq, Structural)]
pub enum ErrorReason {
    AcquisitionControlsUnsupported,
    CacheGenerationChanged,
    Cancelled,
    DeadlineExceeded,
    DeploymentIdentityUnavailable,
    InvalidAcquisitionLimit,
    LimitExceeded,
    RepositoryNotAuthorized,
    TransportFailure,
    UpstreamDenied,
    UpstreamIdentityMismatch,
    UpstreamMalformed,
    UpstreamNotFoundOrHidden,
    UpstreamRateLimited,
    UpstreamUnavailable,
}

/// Which acquisition bound a limit refusal names.
#[derive(Debug, Clone, Copy, PartialEq, Eq, Structural)]
pub enum AcquisitionLimitKind {
    Attempts,
    ResponseBodyBytes,
    AcceptedBodyBytes,
    RepresentationBytes,
    ElapsedNanoseconds,
    DecodedContentBytes,
    CollectionRecords,
}

/// One named bound, with the value that crossed it when one was observed.
#[derive(Debug, Clone, Copy, PartialEq, Eq, Structural)]
pub struct LimitDetail {
    pub kind: AcquisitionLimitKind,
    pub bound: u64,
    pub observed: Option<u64>,
}

/// Structured facts attached to a refusal.
#[derive(Debug, Clone, Copy, PartialEq, Eq, Structural)]
pub struct ErrorDetails {
    pub reason: ErrorReason,
    pub http_status: Option<u16>,
    /// The upstream could not tell "missing" from "hidden from this credential".
    pub missing_or_access_hidden: bool,
    /// Retry-After guidance, in whole seconds.
    pub retry_delay_seconds: Option<u64>,
    pub rate_limit_reset: Option<u64>,
    pub limit: Option<LimitDetail>,
}

/// A refusal: its category, a human sentence, and optional structured facts.
#[derive(Debug, Clone)]
pub struct ResourceError {
    pub category: ErrorCategory,
    pub message: String,
    pub details: Option<ErrorDetails>,
}

impl ErrorDetails {
    pub open spec fn new_spec(reason: ErrorReason) -> ErrorDetails {
        ErrorDetails {
            reason,
            http_status: None,
            missing_or_access_hidden: false,
            retry_delay_seconds: None,
            rate_limit_reset: None,
            limit: None,
        }
    }

    /// Details naming only a reason.
    pub fn new(reason: ErrorReason) -> (d: ErrorDetails)
        ensures
            d == (ErrorDetails {
                reason,
                http_status: None,
                missing_or_access_hidden: false,
                retry_delay_seconds: None,
                rate_limit_reset: None,
                limit: None,
            }),
    {
        ErrorDetails {
            reason,
            http_status: None,
            missing_or_access_hidden: false,
            retry_delay_seconds: None,
            rate_limit_reset: None,
            limit: None,
        }
    }
}

/// `e` is a refusal of `category` with sentence `message` and no details.
pub open spec fn is_refusal(e: ResourceError, category: ErrorCategory, message: Seq<char>) -> bool {
    e.category == category && e.message@ == message && e.details is None
}

/// `r` is what `f` says: success for `None`, else a refusal of the named
/// category and sentence.
pub open spec fn refused_as<T>(r: Result<T, ResourceError>, f: Option<(ErrorCategory, Seq<char>)>) -> bool {
    match f {
        None => r is Ok,
        Some((c, m)) => r matches Err(e) && e.category == c && e.message@ == m,
    }
}

impl ResourceError {
    /// A refusal carrying `message` and no structured details.
    pub fn new(category: ErrorCategory, message: &str) -> (e: ResourceError)
        ensures
            e.category == category,
            e.message@ == message@,
            e.details.is_none(),
    {
        ResourceError { category, message: message.to_owned(), details: None }
    }

    /// A refusal whose message is already an owned string.
    pub fn from_string(category: ErrorCategory, message: String) -> (e: ResourceError)
        ensures
            e.category == category,
            e.message@ == message@,
            e.details.is_none(),
    {
        ResourceError { category, message, details: None }
    }

    /// The same refusal with `details` attached, replacing any earlier ones.
    pub fn with_details(self, details: ErrorDetails) -> (e: ResourceError)
        ensures
            e.category == self.category,
            e.message@ == self.message@,
            e.details == Some(details),
    {
        ResourceError { category: self.category, message: self.message, details: Some(details) }
    }

    pub fn category(&self) -> (c: ErrorCategory)
        ensures
            c == self.category,
    {
        self.category
    }

    pub fn message(&self) -> (m: &str)
        ensures
            m@ == self.message@,
    {
        self.message.as_str()
    }

    pub fn details(&self) -> (d: Option<ErrorDetails>)
        ensures
            d == self.details,
    {
        self.details
    }
}

} // verus!
