use resourcefs_sources::collection::{rollback_allowed, CollectionRead, CollectionStop, ReadStep};
use resourcefs_sources::error::{
    AcquisitionLimitKind, ErrorCategory, ErrorDetails, ErrorReason, LimitDetail, ResourceError,
};

fn malformed() -> ResourceError {
    ResourceError::new(ErrorCategory::SourceUnavailable, "bad")
        .with_details(ErrorDetails::new(ErrorReason::UpstreamMalformed))
}

fn unavailable() -> ResourceError {
    ResourceError::new(ErrorCategory::SourceUnavailable, "down")
}

fn representation_error(observed: u64) -> ResourceError {
    let mut details = ErrorDetails::new(ErrorReason::LimitExceeded);
    details.limit = Some(LimitDetail { kind: AcquisitionLimitKind::RepresentationBytes, bound: 10, observed: Some(observed) });
    ResourceError::new(ErrorCategory::LimitExceeded, "too big").with_details(details)
}

fn reason(error: &ResourceError) -> Option<ErrorReason> {
    error.details.map(|d| d.reason)
}

fn accept_page(read: &mut CollectionRead, url: &str, ids: &[u64]) {
    assert!(matches!(read.begin_page(url), ReadStep::Proceed));
    let outcomes = ids.iter().map(|id| Ok(*id)).collect();
    let checked = read.check_page(url, outcomes).unwrap();
    assert_eq!(checked, ids.to_vec());
    assert!(matches!(read.admit_page(url, checked, 10, 100), ReadStep::Proceed));
}

#[test]
fn pages_are_admitted_in_order() {
    let mut read = CollectionRead::new(10);
    accept_page(&mut read, "https://api/p1", &[1, 2]);
    accept_page(&mut read, "https://api/p2", &[3]);
    assert_eq!(read.record_count(), 3);
    assert_eq!(read.page_count(), 2);
}

#[test]
fn repeated_pages_refuse_or_stop() {
    let mut read = CollectionRead::new(10);
    assert!(matches!(read.begin_page("u1"), ReadStep::Proceed));
    match read.begin_page("u1") {
        ReadStep::Refuse(e) => assert_eq!(reason(&e), Some(ErrorReason::UpstreamMalformed)),
        other => panic!("unexpected {other:?}"),
    }
    let mut read = CollectionRead::new(10);
    accept_page(&mut read, "u1", &[1]);
    match read.begin_page("u1") {
        ReadStep::Stop(CollectionStop::Unknown { reason }) => assert_eq!(reason, "repeated_pagination"),
        other => panic!("unexpected {other:?}"),
    }
}

#[test]
fn fetch_failures_refuse_first_and_stop_later() {
    let read = CollectionRead::new(10);
    assert!(matches!(read.page_failed("u1", unavailable(), 0, 0), ReadStep::Refuse(_)));
    let mut read = CollectionRead::new(10);
    accept_page(&mut read, "u1", &[1]);
    match read.page_failed("u2", unavailable(), 0, 0) {
        ReadStep::Stop(CollectionStop::Incomplete { local_limit: None, failure: Some(e), resume_at }) => {
            assert_eq!(e.message, "down");
            assert_eq!(resume_at.as_deref(), Some("u2"));
        }
        other => panic!("unexpected {other:?}"),
    }
    match read.page_failed("u2", malformed(), 0, 0) {
        ReadStep::Stop(CollectionStop::Incomplete { resume_at: None, .. }) => {}
        other => panic!("unexpected {other:?}"),
    }
    let denied = ResourceError::new(ErrorCategory::PermissionDenied, "no");
    assert!(matches!(read.page_failed("u2", denied, 0, 0), ReadStep::Refuse(_)));
    match read.page_undecodable() {
        ReadStep::Stop(CollectionStop::Incomplete { failure: Some(e), resume_at: None, .. }) => {
            assert_eq!(reason(&e), Some(ErrorReason::UpstreamMalformed));
        }
        other => panic!("unexpected {other:?}"),
    }
    assert!(matches!(CollectionRead::new(3).page_undecodable(), ReadStep::Refuse(_)));
}

#[test]
fn invalid_records_and_duplicates() {
    let mut read = CollectionRead::new(10);
    match read.check_page("u1", vec![Ok(1), Err(malformed()), Ok(2)]) {
        Err(ReadStep::Refuse(e)) => assert_eq!(e.message, "bad"),
        other => panic!("unexpected {other:?}"),
    }
    assert!(matches!(read.check_page("u1", vec![Ok(1), Ok(1)]), Err(ReadStep::Refuse(_))));
    accept_page(&mut read, "u1", &[1, 2]);
    match read.check_page("u2", vec![Ok(3), Err(unavailable())]) {
        Err(ReadStep::Stop(CollectionStop::Incomplete { failure: Some(e), resume_at: None, .. })) => {
            assert_eq!(e.message, "down")
        }
        other => panic!("unexpected {other:?}"),
    }
    match read.check_page("u2", vec![Ok(3), Ok(2)]) {
        Err(ReadStep::Stop(CollectionStop::Unknown { reason })) => assert_eq!(reason, "duplicate_record_id"),
        other => panic!("unexpected {other:?}"),
    }
}

#[test]
fn record_and_representation_limits() {
    let read = CollectionRead::new(2);
    match read.check_page("u1", vec![Ok(1), Ok(2), Ok(3)]) {
        Err(ReadStep::Refuse(e)) => {
            assert_eq!(e.category, ErrorCategory::LimitExceeded);
            assert_eq!(
                e.details.unwrap().limit,
                Some(LimitDetail { kind: AcquisitionLimitKind::CollectionRecords, bound: 2, observed: Some(3) })
            );
        }
        other => panic!("unexpected {other:?}"),
    }
    let mut read = CollectionRead::new(2);
    accept_page(&mut read, "u1", &[1]);
    match read.check_page("u2", vec![Ok(2), Ok(3)]) {
        Err(ReadStep::Stop(CollectionStop::Incomplete { local_limit: Some(l), resume_at, .. })) => {
            assert_eq!(l, LimitDetail { kind: AcquisitionLimitKind::CollectionRecords, bound: 2, observed: Some(3) });
            assert_eq!(resume_at.as_deref(), Some("u2"));
        }
        other => panic!("unexpected {other:?}"),
    }
    match read.admit_page("u2", vec![2], 101, 100) {
        ReadStep::Stop(CollectionStop::Incomplete { local_limit: Some(l), resume_at, .. }) => {
            assert_eq!(l.kind, AcquisitionLimitKind::RepresentationBytes);
            assert_eq!(l.bound, 100);
            assert_eq!(resume_at.as_deref(), Some("u2"));
        }
        other => panic!("unexpected {other:?}"),
    }
    assert_eq!(read.record_count(), 1);
    let mut empty = CollectionRead::new(2);
    match empty.admit_page("u1", vec![1], 101, 100) {
        ReadStep::Refuse(e) => assert_eq!(
            e.details.unwrap().limit,
            Some(LimitDetail { kind: AcquisitionLimitKind::RepresentationBytes, bound: 100, observed: Some(101) })
        ),
        other => panic!("unexpected {other:?}"),
    }
}

#[test]
fn rollback_gives_back_the_last_page() {
    let mut read = CollectionRead::new(10);
    accept_page(&mut read, "u1", &[1, 2]);
    accept_page(&mut read, "u2", &[3]);
    let stop = read.rollback(&representation_error(42), &CollectionStop::Complete, 100).unwrap();
    match stop {
        CollectionStop::Incomplete { local_limit: Some(l), failure: None, resume_at } => {
            assert_eq!(l, LimitDetail { kind: AcquisitionLimitKind::RepresentationBytes, bound: 100, observed: Some(42) });
            assert_eq!(resume_at.as_deref(), Some("u2"));
        }
        other => panic!("unexpected {other:?}"),
    }
    assert_eq!(read.record_count(), 2);
    assert_eq!(read.page_count(), 1);
    assert!(read.rollback(&representation_error(42), &CollectionStop::Complete, 100).is_none());
    assert_eq!(read.record_count(), 2);
    assert!(read.rollback(&unavailable(), &CollectionStop::Complete, 100).is_none());
    let unknown = CollectionStop::Unknown { reason: "duplicate_record_id" };
    assert!(read.rollback(&representation_error(1), &unknown, 100).is_none());
}

#[test]
fn rollback_needs_a_known_state() {
    assert!(rollback_allowed(&CollectionStop::Complete));
    let incomplete = |failure| CollectionStop::Incomplete { local_limit: None, failure, resume_at: None };
    assert!(rollback_allowed(&incomplete(None)));
    assert!(rollback_allowed(&incomplete(Some(unavailable()))));
    assert!(!rollback_allowed(&incomplete(Some(malformed()))));
    assert!(!rollback_allowed(&CollectionStop::Unknown { reason: "repeated_pagination" }));
}

use resourcefs_sources::collection::{actual_stop, observe_representation, MAX_REPRESENTATION_ROUNDS};

#[test]
fn reads_stop_complete_resumable_or_unknown() {
    assert!(matches!(actual_stop(false, Some("x".to_string())), CollectionStop::Complete));
    match actual_stop(true, Some("pr://o/r/7/comments:cursor:abc".to_string())) {
        CollectionStop::Incomplete { local_limit: None, failure: None, resume_at: Some(at) } => {
            assert_eq!(at, "pr://o/r/7/comments:cursor:abc")
        }
        other => panic!("unexpected {other:?}"),
    }
    match actual_stop(true, None) {
        CollectionStop::Unknown { reason } => assert_eq!(reason, "continuation_unrepresentable"),
        other => panic!("unexpected {other:?}"),
    }
}

#[test]
fn representation_limits_record_the_measured_size() {
    assert_eq!(MAX_REPRESENTATION_ROUNDS, 4);
    let limit = LimitDetail { kind: AcquisitionLimitKind::RepresentationBytes, bound: 100, observed: None };
    let mut stop = CollectionStop::Incomplete { local_limit: Some(limit), failure: None, resume_at: None };
    assert!(!observe_representation(&mut stop, 0, 120));
    match &stop {
        CollectionStop::Incomplete { local_limit: Some(l), .. } => assert_eq!(l.observed, Some(120)),
        other => panic!("unexpected {other:?}"),
    }
    assert!(observe_representation(&mut stop, 120, 120));
    let records = LimitDetail { kind: AcquisitionLimitKind::CollectionRecords, bound: 10, observed: Some(11) };
    let mut other = CollectionStop::Incomplete { local_limit: Some(records), failure: None, resume_at: None };
    assert!(!observe_representation(&mut other, 0, 50));
    match &other {
        CollectionStop::Incomplete { local_limit: Some(l), .. } => assert_eq!(l.observed, Some(11)),
        o => panic!("unexpected {o:?}"),
    }
    let mut complete = CollectionStop::Complete;
    assert!(!observe_representation(&mut complete, 1, 2));
    assert!(matches!(complete, CollectionStop::Complete));
}
