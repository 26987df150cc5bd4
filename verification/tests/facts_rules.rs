use resourcefs_sources::error::{
    AcquisitionLimitKind, ErrorCategory, ErrorDetails, ErrorReason, LimitDetail, ResourceError,
};
use resourcefs_sources::facts::{
    base64_len, decode_segment, is_representation_limit, local_limit_error, note_unavailable,
    raw_limit, rejects_every_page, require_login, retains_verified_metadata, retryable, sanitize,
    Presence, Unavailable,
};

fn reason_of(error: &ResourceError) -> Option<ErrorReason> {
    error.details.map(|d| d.reason)
}

fn limit_error(kind: AcquisitionLimitKind, bound: u64, observed: Option<u64>) -> ResourceError {
    let mut details = ErrorDetails::new(ErrorReason::LimitExceeded);
    details.limit = Some(LimitDetail { kind, bound, observed });
    ResourceError::new(ErrorCategory::LimitExceeded, "limit").with_details(details)
}

#[test]
fn base64_lengths_drop_padding() {
    assert_eq!(base64_len(0), Some(0));
    assert_eq!(base64_len(1), Some(2));
    assert_eq!(base64_len(2), Some(3));
    assert_eq!(base64_len(3), Some(4));
    assert_eq!(base64_len(10), Some(14));
    assert_eq!(base64_len(usize::MAX), None);
}

#[test]
fn raw_limit_is_the_largest_raw_size_that_fits() {
    assert_eq!(raw_limit(0), Some(0));
    assert_eq!(raw_limit(1), Some(0));
    assert_eq!(raw_limit(2), Some(1));
    assert_eq!(raw_limit(3), Some(2));
    assert_eq!(raw_limit(4), Some(3));
    assert_eq!(raw_limit(14), Some(10));
    for limit in 0..200usize {
        let raw = raw_limit(limit).unwrap();
        assert!(base64_len(raw).unwrap() <= limit);
        assert!(base64_len(raw + 1).unwrap() > limit);
    }
}

#[test]
fn decode_segment_reads_escapes() {
    assert_eq!(decode_segment("octocat").unwrap(), "octocat");
    assert_eq!(decode_segment("dependabot%5Bbot%5D").unwrap(), "dependabot[bot]");
    assert_eq!(decode_segment("a%2fb").unwrap(), "a/b");
    assert_eq!(decode_segment("%C3%A9").unwrap(), "\u{e9}");
}

#[test]
fn decode_segment_refuses_bad_escapes() {
    for bad in ["%zz", "abc%", "%4", "%ff"] {
        let error = decode_segment(bad).unwrap_err();
        assert_eq!(error.category, ErrorCategory::SourceUnavailable);
        assert_eq!(error.message, "GitHub facts could not be accepted");
        assert_eq!(reason_of(&error), Some(ErrorReason::UpstreamMalformed));
    }
}

#[test]
fn logins_name_one_account() {
    assert!(require_login("octocat").is_ok());
    assert!(require_login("...").is_ok());
    for bad in ["", ".", ".."] {
        let error = require_login(bad).unwrap_err();
        assert_eq!(reason_of(&error), Some(ErrorReason::UpstreamMalformed));
    }
}

#[test]
fn presence_reports_its_availability() {
    let mut output = Vec::new();
    let omitted: Presence<u64> = Presence::Omitted;
    let null: Presence<u64> = Presence::Null;
    let present = Presence::Present(7u64);
    assert!(omitted.omitted());
    assert!(!null.omitted());
    assert_eq!(present.value(), Some(&7));
    assert_eq!(null.value(), None);
    omitted.unavailable("title", &mut output);
    present.unavailable("body", &mut output);
    null.unavailable("user", &mut output);
    assert_eq!(output.len(), 2);
    assert_eq!((output[0].field, output[0].reason), ("title", "omitted"));
    assert_eq!((output[1].field, output[1].reason), ("user", "null"));
}

#[test]
fn note_unavailable_adds_each_entry_once() {
    let mut into = vec![Unavailable { field: "title", reason: "null" }];
    let from = [
        Unavailable { field: "title", reason: "null" },
        Unavailable { field: "title", reason: "omitted" },
        Unavailable { field: "body", reason: "null" },
        Unavailable { field: "body", reason: "null" },
    ];
    note_unavailable(&mut into, &from);
    let pairs: Vec<(&str, &str)> = into.iter().map(|u| (u.field, u.reason)).collect();
    assert_eq!(pairs, vec![("title", "null"), ("title", "omitted"), ("body", "null")]);
}

#[test]
fn retry_follows_the_failure() {
    let malformed = ResourceError::new(ErrorCategory::SourceUnavailable, "x")
        .with_details(ErrorDetails::new(ErrorReason::UpstreamMalformed));
    assert!(!retryable(&malformed, 0, 0));
    let unavailable = ResourceError::new(ErrorCategory::SourceUnavailable, "x");
    assert!(retryable(&unavailable, 0, 0));
    let denied = ResourceError::new(ErrorCategory::PermissionDenied, "x");
    assert!(!retryable(&denied, 0, 0));
    assert!(retryable(&limit_error(AcquisitionLimitKind::Attempts, 3, Some(4)), 0, 0));
    assert!(retryable(&limit_error(AcquisitionLimitKind::ElapsedNanoseconds, 3, None), 0, 0));
    let accepted = limit_error(AcquisitionLimitKind::AcceptedBodyBytes, 100, Some(150));
    assert!(retryable(&accepted, 80, 30));
    assert!(!retryable(&accepted, 80, 31));
    assert!(!retryable(&accepted, 151, 0));
    assert!(!retryable(&limit_error(AcquisitionLimitKind::AcceptedBodyBytes, 100, None), 0, 0));
    assert!(!retryable(&limit_error(AcquisitionLimitKind::ResponseBodyBytes, 100, Some(1)), 0, 0));
}

#[test]
fn some_failures_reject_every_page() {
    assert!(rejects_every_page(&ResourceError::new(ErrorCategory::Cancelled, "x")));
    assert!(rejects_every_page(&ResourceError::new(ErrorCategory::PermissionDenied, "x")));
    let mismatch = ResourceError::new(ErrorCategory::SourceUnavailable, "x")
        .with_details(ErrorDetails::new(ErrorReason::UpstreamIdentityMismatch));
    assert!(rejects_every_page(&mismatch));
    assert!(!rejects_every_page(&ResourceError::new(ErrorCategory::SourceUnavailable, "x")));
}

#[test]
fn local_limits_name_their_bound() {
    let error = local_limit_error(AcquisitionLimitKind::CollectionRecords, 10, 11);
    assert_eq!(error.category, ErrorCategory::LimitExceeded);
    assert_eq!(error.message, "GitHub collection exceeds its local admission limit");
    let details = error.details.unwrap();
    assert_eq!(details.reason, ErrorReason::LimitExceeded);
    assert_eq!(
        details.limit,
        Some(LimitDetail { kind: AcquisitionLimitKind::CollectionRecords, bound: 10, observed: Some(11) })
    );
    assert!(!is_representation_limit(&error));
    assert!(is_representation_limit(&limit_error(AcquisitionLimitKind::RepresentationBytes, 1, Some(2))));
}

#[test]
fn sanitizing_withholds_upstream_sentences() {
    let denied = sanitize(ResourceError::new(ErrorCategory::PermissionDenied, "token lacks scope X"));
    assert_eq!(denied.category, ErrorCategory::PermissionDenied);
    assert_eq!(denied.message, "GitHub facts read failed");
    assert_eq!(reason_of(&denied), Some(ErrorReason::UpstreamDenied));
    let hidden = sanitize(
        ResourceError::new(ErrorCategory::NotFound, "gone")
            .with_details(ErrorDetails::new(ErrorReason::UpstreamIdentityMismatch)),
    );
    assert_eq!(hidden.message, "GitHub facts read failed");
    assert_eq!(reason_of(&hidden), Some(ErrorReason::UpstreamIdentityMismatch));
    let own = ResourceError::new(ErrorCategory::InvalidReference, "bad reference");
    let kept = sanitize(own);
    assert_eq!(kept.message, "bad reference");
    assert!(kept.details.is_none());
}

#[test]
fn blob_failures_that_keep_verified_metadata() {
    let with = |category, reason| ResourceError::new(category, "x").with_details(ErrorDetails::new(reason));
    assert!(retains_verified_metadata(&with(ErrorCategory::SourceUnavailable, ErrorReason::UpstreamRateLimited)));
    assert!(retains_verified_metadata(&with(ErrorCategory::SourceUnavailable, ErrorReason::TransportFailure)));
    assert!(retains_verified_metadata(&with(ErrorCategory::PermissionDenied, ErrorReason::UpstreamDenied)));
    assert!(retains_verified_metadata(&with(ErrorCategory::NotFound, ErrorReason::UpstreamNotFoundOrHidden)));
    assert!(!retains_verified_metadata(&with(ErrorCategory::SourceUnavailable, ErrorReason::UpstreamMalformed)));
    assert!(!retains_verified_metadata(&with(ErrorCategory::LimitExceeded, ErrorReason::LimitExceeded)));
    assert!(!retains_verified_metadata(&ResourceError::new(ErrorCategory::SourceUnavailable, "x")));
}

use resourcefs_sources::facts::{finish_facts, BoundedWriter};

#[test]
fn bounded_writers_refuse_writes_past_their_limit() {
    let mut writer = BoundedWriter::new(5);
    assert!(writer.write(b"abc"));
    assert!(writer.write(b"de"));
    assert!(!writer.exceeded);
    assert!(!writer.write(b"f"));
    assert!(writer.exceeded);
    assert_eq!(writer.bytes, b"abcde".to_vec());
    let mut empty = BoundedWriter::new(0);
    assert!(empty.write(b""));
    assert!(!empty.write(b"x"));
    assert!(empty.bytes.is_empty());
}

#[test]
fn facts_documents_are_bounded_utf8() {
    let mut writer = BoundedWriter::new(64);
    assert!(writer.write(b"{\"id\": 1}"));
    assert_eq!(finish_facts(writer, true, Ok(())).unwrap(), "{\"id\": 1}");
    let mut over = BoundedWriter::new(2);
    assert!(!over.write(b"{\"id\": 1}"));
    let refused = finish_facts(over, false, Ok(())).unwrap_err();
    assert_eq!(refused.category, ErrorCategory::LimitExceeded);
    assert_eq!(refused.message, "GitHub facts representation exceeds its limit");
    assert_eq!(refused.details, limit_error(AcquisitionLimitKind::RepresentationBytes, 2, None).details);
    let failed = finish_facts(BoundedWriter::new(64), false, Ok(())).unwrap_err();
    assert_eq!(reason_of(&failed), Some(ErrorReason::UpstreamMalformed));
    let mut invalid = BoundedWriter::new(64);
    assert!(invalid.write(&[0xff, 0xfe]));
    assert_eq!(reason_of(&finish_facts(invalid, true, Ok(())).unwrap_err()), Some(ErrorReason::UpstreamMalformed));
}

#[test]
fn facts_documents_are_published_only_to_live_reads() {
    let mut writer = BoundedWriter::new(64);
    assert!(writer.write(b"{}"));
    let cancelled = ResourceError::new(ErrorCategory::Cancelled, "HTTP read was cancelled");
    let refused = finish_facts(writer, true, Err(cancelled)).unwrap_err();
    assert_eq!(refused.category, ErrorCategory::Cancelled);
    assert_eq!(refused.message, "HTTP read was cancelled");
}
