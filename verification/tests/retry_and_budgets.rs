use std::time::Duration;

use resourcefs_sources::error::ErrorCategory;
use resourcefs_sources::http::{
    jitter_from_sample, parse_retry_after_text, retry_wait_fits, HttpReadBudget, LogicalDeadline,
    RetryAfter, Span,
};
use resourcefs_sources::workspace::{WorkspaceDiscoveryBudget, MAX_WORKSPACE_DISCOVERY_STATE_BYTES};

fn span(d: Duration) -> Span {
    Span { secs: d.as_secs(), nanos: d.subsec_nanos() }
}

#[test]
fn retained_traversal_state_has_an_exact_ceiling() {
    let mut budget = WorkspaceDiscoveryBudget::default();
    budget
        .charge_state(MAX_WORKSPACE_DISCOVERY_STATE_BYTES)
        .expect("exact traversal-state ceiling");
    let error = budget
        .charge_state(1)
        .expect_err("one byte over traversal-state ceiling");
    assert_eq!(error.category(), ErrorCategory::LimitExceeded);
    assert!(budget.is_exhausted());
}

#[test]
fn retry_after_delta_and_http_date_have_one_typed_delay() {
    let before_known_date = span(Duration::from_secs(784_111_776));

    assert_eq!(
        parse_retry_after_text("0", before_known_date),
        RetryAfter::Delay(span(Duration::ZERO))
    );
    assert_eq!(
        parse_retry_after_text("7", before_known_date),
        RetryAfter::Delay(span(Duration::from_secs(7)))
    );
    assert_eq!(
        parse_retry_after_text("Sun, 06 Nov 1994 08:49:37 GMT", before_known_date),
        RetryAfter::Delay(span(Duration::from_secs(1)))
    );
}

#[test]
fn unusable_retry_after_never_becomes_zero_delay() {
    let known_date = span(Duration::from_secs(784_111_777));
    for value in [
        "",
        "-1",
        "18446744073709551616",
        "+1",
        " 1",
        "1 ",
        "not-a-date",
        "Sun, 06 Nov 1994 08:49:36 GMT",
        "0, 1",
    ] {
        assert_eq!(
            parse_retry_after_text(value, known_date),
            RetryAfter::Invalid,
            "{value:?}"
        );
    }
}

#[test]
fn retry_jitter_is_bounded_unbiased_and_deadline_checked() {
    assert_eq!(
        jitter_from_sample([0, 251, 252, 253, 254, 255, 251, 252])
            .expect("zero is an accepted sample"),
        span(Duration::ZERO)
    );
    assert_eq!(
        jitter_from_sample([251, 252, 137, 253, 254, 255, 251, 252])
            .expect("the first in-range byte is accepted"),
        span(Duration::from_millis(137))
    );
    assert_eq!(
        jitter_from_sample([251, 252, 253, 254, 255, 250, 251, 252]).expect("250 is included"),
        span(Duration::from_millis(250))
    );
    let failure = jitter_from_sample([251; 8]).expect_err("no biased fallback");
    assert_eq!(failure.category(), ErrorCategory::SourceUnavailable);

    assert!(retry_wait_fits(
        span(Duration::from_millis(251)),
        span(Duration::ZERO),
        span(Duration::from_millis(250))
    ));
    assert!(!retry_wait_fits(
        span(Duration::from_millis(250)),
        span(Duration::ZERO),
        span(Duration::from_millis(250))
    ));
    assert!(!retry_wait_fits(
        span(Duration::MAX),
        span(Duration::MAX),
        span(Duration::from_millis(1))
    ));
}

#[test]
fn logical_read_never_refreshes_its_deadline() {
    let started = span(Duration::from_secs(1_000));
    let deadline = LogicalDeadline::new(started, span(Duration::from_secs(5)))
        .expect("representable deadline");

    assert_eq!(
        deadline.remaining_at(span(Duration::from_secs(1_002))),
        span(Duration::from_secs(3))
    );
    assert_eq!(
        deadline.remaining_at(span(Duration::from_secs(1_004))),
        span(Duration::from_secs(1))
    );
}

#[test]
fn retry_after_equal_http_date_is_zero_delay() {
    let known_date = span(Duration::from_secs(784_111_777));
    assert_eq!(
        parse_retry_after_text("Sun, 06 Nov 1994 08:49:37 GMT", known_date),
        RetryAfter::Delay(span(Duration::ZERO))
    );
}

#[test]
fn legacy_ledger_does_not_acquire_a_cumulative_byte_policy() {
    let mut budget = HttpReadBudget::new(10).expect("legacy budget");
    for _ in 0..3 {
        budget
            .admit_body(8 * 1024 * 1024)
            .expect("legacy admission");
    }
    assert_eq!(budget.accepted_body_bytes(), 24 * 1024 * 1024);
}
