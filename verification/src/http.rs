//! HTTP acquisition policy: Retry-After guidance, unbiased retry jitter,
//! deadline arithmetic, the per-read attempt and byte budget, the retry
//! decisions taken between attempts, reader-mode input checks and Basic
//! credential composition.
use vstd::prelude::*;
use crate::error::{
    AcquisitionLimitKind, ErrorCategory, ErrorDetails, ErrorReason, LimitDetail, ResourceError,
};
use crate::text::{
    all_digits, chars_eq_ignore_case, chars_eq_str, chars_of, eq_ignore_case, find_char, is_digit,
    lemma_find_char_bounds, lower_chars, lower_seq, parse_u64, parse_u64_spec, push_str,
    split_chars, split_once_seq, split_seq, string_of, sub_chars, trim, trim_char,
    trim_char_chars, trim_chars, unsigned_digits, views,
};
use base64::Engine as _;
use vstd::string::StringSliceAdditionalSpecFns;

verus! {

broadcast use vstd::string::group_string_axioms;

pub const NANOS_PER_SEC: u32 = 1_000_000_000;
pub const RETRY_JITTER_MAX_MILLIS: u8 = 250;
pub const RETRY_JITTER_SAMPLE_BYTES: usize = 8;
pub const MAX_HTTP_READ_ATTEMPTS: usize = 10;
pub const MAX_SOURCE_REQUEST_HEADER_BYTES: usize = 16384;

/// Whole seconds plus nanoseconds, as `std::time::Duration` holds a span
/// (and as an instant is held relative to its clock's origin).
#[derive(Debug, Clone, Copy, PartialEq, Eq, Structural)]
pub struct Span {
    pub secs: u64,
    pub nanos: u32,
}

/// The largest representable span, in nanoseconds.
pub open spec fn max_span_nanos() -> nat {
    u64::MAX as nat * 1_000_000_000 + 999_999_999
}

impl Span {
    pub open spec fn wf(self) -> bool {
        self.nanos < NANOS_PER_SEC
    }

    /// The span in nanoseconds.
    pub open spec fn total(self) -> nat {
        self.secs as nat * 1_000_000_000 + self.nanos as nat
    }

    pub fn zero() -> (s: Span)
        ensures
            s.wf() && s.total() == 0,
    {
        Span { secs: 0, nanos: 0 }
    }

    pub fn from_secs(secs: u64) -> (s: Span)
        ensures
            s.wf() && s.total() == secs as nat * 1_000_000_000 && s.secs == secs && s.nanos == 0,
    {
        Span { secs, nanos: 0 }
    }

    /// A span of at most 255 milliseconds.
    pub fn from_millis_u8(millis: u8) -> (s: Span)
        ensures
            s.wf() && s.total() == millis as nat * 1_000_000,
    {
        Span { secs: 0, nanos: (millis as u32) * 1_000_000 }
    }

    pub fn is_zero(&self) -> (b: bool)
        requires
            self.wf(),
        ensures
            b == (self.total() == 0),
    {
        self.secs == 0 && self.nanos == 0
    }

    /// `self < other`.
    pub fn lt(&self, other: &Span) -> (b: bool)
        requires
            self.wf(),
            other.wf(),
        ensures
            b == (self.total() < other.total()),
    {
        proof {
            lemma_span_order(*self, *other);
        }
        self.secs < other.secs || (self.secs == other.secs && self.nanos < other.nanos)
    }

    /// `Duration::checked_add`: `None` exactly when the sum is not representable.
    pub fn checked_add(&self, other: &Span) -> (r: Option<Span>)
        requires
            self.wf(),
            other.wf(),
        ensures
            r is None <==> self.total() + other.total() > max_span_nanos(),
            r matches Some(s) ==> s.wf() && s.total() == self.total() + other.total(),
    {
        if self.secs > u64::MAX - other.secs {
            proof {
                assert(self.total() + other.total() > max_span_nanos()) by (nonlinear_arith)
                    requires
                        self.secs as nat + other.secs as nat >= u64::MAX as nat + 1,
                ;
            }
            return None;
        }
        let secs = self.secs + other.secs;
        let nanos = self.nanos + other.nanos;
        if nanos >= NANOS_PER_SEC {
            if secs == u64::MAX {
                proof {
                    assert(self.total() + other.total() > max_span_nanos()) by (nonlinear_arith)
                        requires
                            self.secs as nat + other.secs as nat == u64::MAX as nat,
                            self.nanos as nat + other.nanos as nat >= 1_000_000_000,
                    ;
                }
                return None;
            }
            let s = Span { secs: secs + 1, nanos: nanos - NANOS_PER_SEC };
            proof {
                assert(s.total() == self.total() + other.total()) by (nonlinear_arith)
                    requires
                        s.secs as nat == self.secs as nat + other.secs as nat + 1,
                        s.nanos as nat + 1_000_000_000 == self.nanos as nat + other.nanos as nat,
                ;
                assert(s.total() <= max_span_nanos()) by (nonlinear_arith)
                    requires
                        s.secs <= u64::MAX,
                        s.nanos < 1_000_000_000,
                ;
            }
            Some(s)
        } else {
            let s = Span { secs, nanos };
            proof {
                assert(s.total() == self.total() + other.total()) by (nonlinear_arith)
                    requires
                        s.secs as nat == self.secs as nat + other.secs as nat,
                        s.nanos as nat == self.nanos as nat + other.nanos as nat,
                ;
                assert(s.total() <= max_span_nanos()) by (nonlinear_arith)
                    requires
                        s.secs <= u64::MAX,
                        s.nanos < 1_000_000_000,
                ;
            }
            Some(s)
        }
    }

    /// `Duration::saturating_sub`: the difference, or zero.
    pub fn saturating_sub(&self, other: &Span) -> (r: Span)
        requires
            self.wf(),
            other.wf(),
        ensures
            r.wf(),
            r.total() == if self.total() >= other.total() {
                self.total() - other.total()
            } else {
                0
            },
    {
        proof {
            lemma_span_order(*self, *other);
        }
        if self.secs < other.secs || (self.secs == other.secs && self.nanos < other.nanos) {
            return Span::zero();
        }
        if self.nanos >= other.nanos {
            let r = Span { secs: self.secs - other.secs, nanos: self.nanos - other.nanos };
            proof {
                assert(r.total() == self.total() - other.total()) by (nonlinear_arith)
                    requires
                        r.secs as nat + other.secs as nat == self.secs as nat,
                        r.nanos as nat + other.nanos as nat == self.nanos as nat,
                ;
            }
            r
        } else {
            let r = Span {
                secs: self.secs - other.secs - 1,
                nanos: self.nanos + (NANOS_PER_SEC - other.nanos),
            };
            proof {
                assert(r.total() == self.total() - other.total()) by (nonlinear_arith)
                    requires
                        r.secs as nat + other.secs as nat + 1 == self.secs as nat,
                        r.nanos as nat + other.nanos as nat == self.nanos as nat + 1_000_000_000,
                ;
            }
            r
        }
    }
}

proof fn lemma_span_order(a: Span, b: Span)
    requires
        a.wf(),
        b.wf(),
    ensures
        a.total() < b.total() <==> (a.secs < b.secs || (a.secs == b.secs && a.nanos < b.nanos)),
{
    if a.secs < b.secs {
        assert(a.total() < b.total()) by (nonlinear_arith)
            requires
                a.secs < b.secs,
                a.nanos < 1_000_000_000,
        ;
    } else if a.secs > b.secs {
        assert(a.total() > b.total()) by (nonlinear_arith)
            requires
                a.secs > b.secs,
                b.nanos < 1_000_000_000,
        ;
    }
}

// ------------------------------------------------------------- Retry-After

/// Retry-After guidance of one response.
#[derive(Debug, Clone, Copy, PartialEq, Eq, Structural)]
pub enum RetryAfter {
    Missing,
    Invalid,
    Delay(Span),
}

impl RetryAfter {
    /// The usable delay, if the guidance named one.
    pub fn delay(self) -> (d: Option<Span>)
        ensures
            d == (match self {
                RetryAfter::Delay(s) => Some(s),
                _ => None,
            }),
    {
        match self {
            RetryAfter::Delay(delay) => Some(delay),
            RetryAfter::Missing | RetryAfter::Invalid => None,
        }
    }
}

/// The instant an HTTP-date names, in whole seconds since the Unix epoch,
/// as `httpdate::parse_http_date` reads it.
pub uninterp spec fn http_date_secs(value: Seq<char>) -> Option<u64>;

/// Parses an HTTP-date (`httpdate::parse_http_date`) and returns its instant
/// in seconds since the Unix epoch. The contract only names the result;
/// which spellings the crate accepts is its own.
#[verifier::external_body]
fn parse_http_date_secs(value: &str) -> (r: Option<u64>)
    ensures
        r == http_date_secs(value@),
{
    httpdate::parse_http_date(value).ok().and_then(
        |at| at.duration_since(std::time::UNIX_EPOCH).ok(),
    ).map(|since| since.as_secs())
}

/// The guidance a Retry-After value gives at wall-clock `now` (a span since
/// the Unix epoch): a delta in whole seconds, or the time left until an
/// HTTP-date that is not in the past.
pub open spec fn retry_after_text_spec(value: Seq<char>, now: Span, r: RetryAfter) -> bool {
    if value.len() > 0 && all_digits(value) {
        match parse_u64_spec(value) {
            Some(n) => r == RetryAfter::Delay(Span { secs: n, nanos: 0 }),
            None => r == RetryAfter::Invalid,
        }
    } else {
        match http_date_secs(value) {
            None => r == RetryAfter::Invalid,
            Some(at) => if at as nat * 1_000_000_000 >= now.total() {
                r matches RetryAfter::Delay(d) && d.wf() && d.total() == at as nat * 1_000_000_000
                    - now.total()
            } else {
                r == RetryAfter::Invalid
            },
        }
    }
}

pub fn parse_retry_after_text(value: &str, now: Span) -> (r: RetryAfter)
    requires
        now.wf(),
    ensures
        retry_after_text_spec(value@, now, r),
{
    let chars = chars_of(value);
    let mut digits = chars.len() > 0;
    let mut i: usize = 0;
    while i < chars.len()
        invariant
            i <= chars@.len(),
            digits == (chars@.len() > 0 && forall|k: int| 0 <= k < i ==> is_digit(
                #[trigger] chars@[k],
            )),
        decreases chars@.len() - i,
    {
        if !('0' <= chars[i] && chars[i] <= '9') {
            digits = false;
        }
        i = i + 1;
    }
    if digits {
        proof {
            assert(chars@[0] != '+');
            assert(unsigned_digits(chars@) == chars@);
        }
        return match parse_u64(&chars) {
            Some(seconds) => RetryAfter::Delay(Span::from_secs(seconds)),
            None => RetryAfter::Invalid,
        };
    }
    let at = match parse_http_date_secs(value) {
        Some(at) => at,
        None => {
            return RetryAfter::Invalid;
        },
    };
    let at_span = Span::from_secs(at);
    if at_span.lt(&now) {
        return RetryAfter::Invalid;
    }
    let d = at_span.saturating_sub(&now);
    RetryAfter::Delay(d)
}

/// Header bytes `HeaderValue::to_str` accepts: visible ASCII and tab.
pub open spec fn is_visible_header_byte(b: u8) -> bool {
    (32 <= b && b < 127) || b == 9
}

/// The guidance of a response's `Retry-After` header lines: none is
/// `Missing`; more than one, an over-ceiling or non-text value is `Invalid`.
pub open spec fn retry_after_spec(values: Seq<Seq<u8>>, now: Span, r: RetryAfter) -> bool {
    if values.len() == 0 {
        r == RetryAfter::Missing
    } else if values.len() > 1 || values[0].len() > MAX_SOURCE_REQUEST_HEADER_BYTES || exists|k: int|
        0 <= k < values[0].len() && !is_visible_header_byte(#[trigger] values[0][k]) {
        r == RetryAfter::Invalid
    } else {
        retry_after_text_spec(values[0].map_values(|b: u8| b as char), now, r)
    }
}

/// The text of header bytes already known to be visible ASCII.
fn ascii_header_text(bytes: &[u8]) -> (s: String)
    requires
        forall|k: int| 0 <= k < bytes@.len() ==> is_visible_header_byte(#[trigger] bytes@[k]),
    ensures
        s@ == bytes@.map_values(|b: u8| b as char),
{
    let mut s = String::new();
    let mut i: usize = 0;
    while i < bytes.len()
        invariant
            i <= bytes@.len(),
            forall|k: int| 0 <= k < bytes@.len() ==> is_visible_header_byte(#[trigger] bytes@[k]),
            s@ == bytes@.take(i as int).map_values(|b: u8| b as char),
        decreases bytes@.len() - i,
    {
        let b = bytes[i];
        assert(is_visible_header_byte(bytes@[i as int]));
        let c = crate::text::char_from_ascii(b);
        assert(c == b as char);
        crate::text::push_char(&mut s, c);
        proof {
            assert(bytes@.take(i + 1).map_values(|b: u8| b as char) =~= bytes@.take(i as int).map_values(
                |b: u8| b as char,
            ).push(b as char));
        }
        i = i + 1;
    }
    proof {
        assert(bytes@.take(bytes@.len() as int) =~= bytes@);
    }
    s
}

pub fn parse_retry_after(values: &[Vec<u8>], now: Span) -> (r: RetryAfter)
    requires
        now.wf(),
    ensures
        retry_after_spec(values@.map_values(|v: Vec<u8>| v@), now, r),
{
    let ghost vs = values@.map_values(|v: Vec<u8>| v@);
    if values.len() == 0 {
        return RetryAfter::Missing;
    }
    if values.len() > 1 || values[0].len() > MAX_SOURCE_REQUEST_HEADER_BYTES {
        return RetryAfter::Invalid;
    }
    let value = &values[0];
    let mut i: usize = 0;
    while i < value.len()
        invariant
            i <= value@.len(),
            vs == values@.map_values(|v: Vec<u8>| v@),
            values@.len() == 1,
            value@ == values@[0]@,
            forall|k: int| 0 <= k < i ==> is_visible_header_byte(#[trigger] value@[k]),
        decreases value@.len() - i,
    {
        let b = value[i];
        if !((32 <= b && b < 127) || b == 9) {
            proof {
                assert(vs[0] == value@);
                assert(!is_visible_header_byte(vs[0][i as int]));
            }
            return RetryAfter::Invalid;
        }
        i = i + 1;
    }
    proof {
        assert(vs[0] == value@);
    }
    let text = ascii_header_text(value.as_slice());
    parse_retry_after_text(text.as_str(), now)
}

// ------------------------------------------------------------------ jitter

/// The index of the first byte of `sample` no greater than 250.
pub open spec fn first_unbiased(sample: Seq<u8>) -> Option<int> {
    if exists|i: int| 0 <= i < sample.len() && sample[i] <= RETRY_JITTER_MAX_MILLIS {
        Some(
            choose|i: int|
                0 <= i < sample.len() && sample[i] <= RETRY_JITTER_MAX_MILLIS && forall|k: int|
                    0 <= k < i ==> sample[k] > RETRY_JITTER_MAX_MILLIS,
        )
    } else {
        None
    }
}

/// Retry jitter from an entropy sample: the first byte within 0..=250, read
/// as milliseconds; a sample with none is refused rather than biased.
pub fn jitter_from_sample(sample: [u8; 8]) -> (r: Result<Span, ResourceError>)
    ensures
        (exists|i: int| 0 <= i < 8 && sample@[i] <= RETRY_JITTER_MAX_MILLIS) <==> r is Ok,
        r matches Ok(d) ==> exists|i: int|
            0 <= i < 8 && sample@[i] <= RETRY_JITTER_MAX_MILLIS && (forall|k: int|
                0 <= k < i ==> sample@[k] > RETRY_JITTER_MAX_MILLIS) && d.wf() && d.total()
                == sample@[i] as nat * 1_000_000,
        r matches Err(e) ==> e.category == ErrorCategory::SourceUnavailable && e.message@
            == "HTTP retry jitter could not be sampled without bias"@ && e.details is None,
{
    let mut i: usize = 0;
    while i < RETRY_JITTER_SAMPLE_BYTES
        invariant
            i <= 8,
            forall|k: int| 0 <= k < i ==> sample@[k] > RETRY_JITTER_MAX_MILLIS,
        decreases 8 - i,
    {
        let millis = sample[i];
        if millis <= RETRY_JITTER_MAX_MILLIS {
            let d = Span::from_millis_u8(millis);
            return Ok(d);
        }
        i = i + 1;
    }
    Err(
        ResourceError::new(
            ErrorCategory::SourceUnavailable,
            "HTTP retry jitter could not be sampled without bias",
        ),
    )
}

/// `N` bytes from the operating system's entropy source (`getrandom::fill`),
/// or the source's error text. Nothing is stated of the bytes.
#[verifier::external_body]
pub(crate) fn entropy_bytes<const N: usize>() -> (r: Result<[u8; N], String>) {
    let mut sample = [0_u8; N];
    match getrandom::fill(&mut sample) {
        Ok(()) => Ok(sample),
        Err(error) => Err(error.to_string()),
    }
}

/// Fresh retry jitter: whatever the entropy source returns, an accepted
/// jitter is a whole number of milliseconds no greater than 250.
pub fn random_retry_jitter() -> (r: Result<Span, ResourceError>)
    ensures
        r matches Ok(d) ==> d.wf() && d.total() <= 250 * 1_000_000 && d.total() % 1_000_000
            == 0,
        r matches Err(e) ==> e.category == ErrorCategory::SourceUnavailable && e.details is None && (e.message@
            == "HTTP retry jitter could not be sampled without bias"@ || e.message@.take(43)
            == "HTTP retry jitter entropy was unavailable: "@),
{
    match entropy_bytes::<8>() {
        Ok(sample) => {
            let r = jitter_from_sample(sample);
            proof {
                if let Ok(d) = r {
                    let i = choose|i: int|
                        0 <= i < 8 && sample@[i] <= RETRY_JITTER_MAX_MILLIS && (forall|k: int|
                            0 <= k < i ==> sample@[k] > RETRY_JITTER_MAX_MILLIS) && d.wf()
                            && d.total() == sample@[i] as nat * 1_000_000;
                    assert(d.total() % 1_000_000 == 0) by (nonlinear_arith)
                        requires
                            d.total() == sample@[i] as nat * 1_000_000,
                    ;
                }
            }
            r
        },
        Err(error) => {
            let mut message = String::new();
            push_str(&mut message, "HTTP retry jitter entropy was unavailable: ");
            push_str(&mut message, error.as_str());
            proof {
                reveal_strlit("HTTP retry jitter entropy was unavailable: ");
                assert(message@.take(43) =~= "HTTP retry jitter entropy was unavailable: "@);
            }
            Err(ResourceError::from_string(ErrorCategory::SourceUnavailable, message))
        },
    }
}

/// A retry wait fits only when delay plus jitter is representable and ends
/// strictly before the remaining deadline.
pub fn retry_wait_fits(remaining: Span, delay: Span, jitter: Span) -> (b: bool)
    requires
        remaining.wf(),
        delay.wf(),
        jitter.wf(),
    ensures
        b == (delay.total() + jitter.total() <= max_span_nanos() && delay.total()
            + jitter.total() < remaining.total()),
{
    match delay.checked_add(&jitter) {
        Some(wait) => wait.lt(&remaining),
        None => false,
    }
}

// ---------------------------------------------------------------- deadlines

/// The fixed instant one logical read must finish by.
#[derive(Debug, Clone, Copy, PartialEq, Eq, Structural)]
pub struct LogicalDeadline {
    pub at: Span,
}

impl LogicalDeadline {
    /// The deadline `timeout` after `started`, or a refusal when that instant
    /// is not representable.
    pub fn new(started: Span, timeout: Span) -> (r: Result<LogicalDeadline, ResourceError>)
        requires
            started.wf(),
            timeout.wf(),
        ensures
            r is Ok <==> started.total() + timeout.total() <= max_span_nanos(),
            r matches Ok(d) ==> d.at.wf() && d.at.total() == started.total() + timeout.total(),
            r matches Err(e) ==> e.category == ErrorCategory::LimitExceeded && e.message@
                == "HTTP logical read deadline is not representable"@,
    {
        match started.checked_add(&timeout) {
            Some(at) => Ok(LogicalDeadline { at }),
            None => Err(
                ResourceError::new(
                    ErrorCategory::LimitExceeded,
                    "HTTP logical read deadline is not representable",
                ),
            ),
        }
    }

    /// Time left at `now`; zero once the deadline has passed.
    pub fn remaining_at(&self, now: Span) -> (r: Span)
        requires
            self.at.wf(),
            now.wf(),
        ensures
            r.wf(),
            r.total() == if self.at.total() >= now.total() {
                self.at.total() - now.total()
            } else {
                0
            },
    {
        self.at.saturating_sub(&now)
    }
}

// ----------------------------------------------------------- fetch failure

/// A failed attempt, with whether it may be replayed and whether the
/// upstream may have acted on it.
#[derive(Debug)]
pub struct HttpFetchFailure {
    pub error: ResourceError,
    pub retryable: bool,
    pub unknown_outcome: bool,
}

impl HttpFetchFailure {
    /// Refused before anything reached the upstream.
    pub fn terminal(error: ResourceError) -> (f: HttpFetchFailure)
        ensures
            f.error == error && !f.retryable && !f.unknown_outcome,
    {
        HttpFetchFailure { error, retryable: false, unknown_outcome: false }
    }

    /// A transport failure: replayable, outcome unknown.
    pub fn transport(error: ResourceError) -> (f: HttpFetchFailure)
        ensures
            f.error == error && f.retryable && f.unknown_outcome,
    {
        HttpFetchFailure { error, retryable: true, unknown_outcome: true }
    }

    /// Failed after egress: not replayable, outcome unknown.
    pub fn unknown(error: ResourceError) -> (f: HttpFetchFailure)
        ensures
            f.error == error && !f.retryable && f.unknown_outcome,
    {
        HttpFetchFailure { error, retryable: false, unknown_outcome: true }
    }

    pub fn is_retryable(&self) -> (b: bool)
        ensures
            b == self.retryable,
    {
        self.retryable
    }

    pub fn is_unknown_outcome(&self) -> (b: bool)
        ensures
            b == self.unknown_outcome,
    {
        self.unknown_outcome
    }

    pub fn into_error(self) -> (e: ResourceError)
        ensures
            e == self.error,
    {
        self.error
    }
}

// ------------------------------------------------------------ read budget

/// Caller-chosen bounds of one controlled read.
#[derive(Debug, Clone, Copy, PartialEq, Eq, Structural)]
pub struct ReadAcquisitionLimits {
    pub max_attempts: usize,
    pub timeout: Span,
    pub max_response_bytes: usize,
    pub max_accepted_body_bytes: usize,
    pub max_representation_bytes: usize,
}

/// Attempt and retry permits, plus cumulative accepted body bytes, of one
/// logical read. It cannot be reset: refusals change nothing, admissions
/// only grow.
#[derive(Debug)]
pub struct HttpReadBudget {
    pub remaining_attempts: usize,
    pub max_attempts: usize,
    pub byte_limits: Option<ReadAcquisitionLimits>,
    pub accepted_body_bytes: usize,
    pub retry_available: bool,
}

/// `new` and `r` are what admitting a body of `bytes` to `old` gives: the
/// bytes are added on success and nothing changes on a refusal, which comes
/// exactly when a ceiling would be crossed.
pub open spec fn admits(old: HttpReadBudget, new: HttpReadBudget, bytes: usize, r: Result<(), ResourceError>) -> bool {
    &&& new.remaining_attempts == old.remaining_attempts
    &&& new.max_attempts == old.max_attempts
    &&& new.byte_limits == old.byte_limits
    &&& new.retry_available == old.retry_available
    &&& r is Ok ==> new.accepted_body_bytes == old.accepted_body_bytes + bytes
    &&& r is Err ==> new.accepted_body_bytes == old.accepted_body_bytes
    &&& match old.byte_limits {
        Some(l) => (r is Ok <==> bytes <= l.max_response_bytes && old.accepted_body_bytes + bytes
            <= l.max_accepted_body_bytes),
        None => (r is Ok <==> old.accepted_body_bytes + bytes <= usize::MAX),
    }
}

/// A limit refusal naming `kind`, `bound` and the observed value.
pub open spec fn is_budget_limit_error(
    e: ResourceError,
    kind: AcquisitionLimitKind,
    bound: nat,
    observed: Option<u64>,
) -> bool {
    &&& e.category == ErrorCategory::LimitExceeded
    &&& e.message@ == "HTTP logical read exceeded an acquisition limit"@
    &&& e.details == Some(
        ErrorDetails {
            reason: ErrorReason::LimitExceeded,
            http_status: None,
            missing_or_access_hidden: false,
            retry_delay_seconds: None,
            rate_limit_reset: None,
            limit: Some(LimitDetail { kind, bound: bound as u64, observed }),
        },
    )
}

fn budget_limit_error(kind: AcquisitionLimitKind, bound: usize, observed: Option<usize>) -> (e:
    ResourceError)
    ensures
        is_budget_limit_error(
            e,
            kind,
            bound as nat,
            match observed {
                Some(v) => Some(v as u64),
                None => None,
            },
        ),
{
    let observed64: Option<u64> = match observed {
        Some(v) => Some(v as u64),
        None => None,
    };
    let mut details = ErrorDetails::new(ErrorReason::LimitExceeded);
    details.limit = Some(LimitDetail { kind, bound: bound as u64, observed: observed64 });
    ResourceError::new(
        ErrorCategory::LimitExceeded,
        "HTTP logical read exceeded an acquisition limit",
    ).with_details(details)
}

impl HttpReadBudget {
    /// Attempts never exceed their maximum and admitted bytes never exceed
    /// the accepted-body ceiling.
    pub open spec fn wf(&self) -> bool {
        &&& self.remaining_attempts <= self.max_attempts
        &&& self.byte_limits matches Some(l) ==> self.accepted_body_bytes
            <= l.max_accepted_body_bytes
    }

    /// A budget of `max_attempts` attempts, refused outside 1..=10.
    pub fn new(max_attempts: usize) -> (r: Result<HttpReadBudget, ResourceError>)
        ensures
            r is Ok <==> 1 <= max_attempts <= MAX_HTTP_READ_ATTEMPTS,
            r matches Ok(b) ==> b.wf() && b.remaining_attempts == max_attempts && b.max_attempts
                == max_attempts && b.byte_limits is None && b.accepted_body_bytes == 0
                && b.retry_available,
            r matches Err(e) ==> e.category == ErrorCategory::InvalidReference && e.message@
                == "HTTP read attempt limit must be between 1 and 10"@ && e.details == Some(
                ErrorDetails::new_spec(ErrorReason::InvalidAcquisitionLimit),
            ),
    {
        if max_attempts < 1 || max_attempts > MAX_HTTP_READ_ATTEMPTS {
            return Err(
                ResourceError::new(
                    ErrorCategory::InvalidReference,
                    "HTTP read attempt limit must be between 1 and 10",
                ).with_details(ErrorDetails::new(ErrorReason::InvalidAcquisitionLimit)),
            );
        }
        Ok(
            HttpReadBudget {
                remaining_attempts: max_attempts,
                max_attempts,
                byte_limits: None,
                accepted_body_bytes: 0,
                retry_available: true,
            },
        )
    }

    /// A budget enforcing every bound of `limits`.
    pub fn with_limits(limits: &ReadAcquisitionLimits) -> (b: HttpReadBudget)
        ensures
            b.wf(),
            b.remaining_attempts == limits.max_attempts,
            b.max_attempts == limits.max_attempts,
            b.byte_limits == Some(*limits),
            b.accepted_body_bytes == 0,
            b.retry_available,
    {
        HttpReadBudget {
            remaining_attempts: limits.max_attempts,
            max_attempts: limits.max_attempts,
            byte_limits: Some(*limits),
            accepted_body_bytes: 0,
            retry_available: true,
        }
    }

    pub fn used_attempts(&self) -> (n: usize)
        requires
            self.wf(),
        ensures
            n == self.max_attempts - self.remaining_attempts,
    {
        self.max_attempts - self.remaining_attempts
    }

    pub fn accepted_body_bytes(&self) -> (n: usize)
        ensures
            n == self.accepted_body_bytes,
    {
        self.accepted_body_bytes
    }

    pub fn remaining_attempts(&self) -> (n: usize)
        ensures
            n == self.remaining_attempts,
    {
        self.remaining_attempts
    }

    /// Admits a verified body of `bytes`: refused when it exceeds the
    /// per-response ceiling or the rest of the cumulative ceiling. A refusal
    /// changes nothing.
    pub fn admit_body(&mut self, bytes: usize) -> (r: Result<(), ResourceError>)
        requires
            old(self).wf(),
        ensures
            final(self).wf(),
            admits(*old(self), *final(self), bytes, r),
            final(self).remaining_attempts == old(self).remaining_attempts,
            final(self).max_attempts == old(self).max_attempts,
            final(self).byte_limits == old(self).byte_limits,
            final(self).retry_available == old(self).retry_available,
            r is Ok ==> final(self).accepted_body_bytes == old(self).accepted_body_bytes + bytes,
            r is Err ==> final(self).accepted_body_bytes == old(self).accepted_body_bytes,
            match old(self).byte_limits {
                Some(l) => {
                    &&& (r is Ok <==> bytes <= l.max_response_bytes && old(self).accepted_body_bytes
                        + bytes <= l.max_accepted_body_bytes)
                    &&& bytes > l.max_response_bytes ==> (r matches Err(e)
                        && is_budget_limit_error(
                        e,
                        AcquisitionLimitKind::ResponseBodyBytes,
                        l.max_response_bytes as nat,
                        Some(bytes as u64),
                    ))
                    &&& bytes <= l.max_response_bytes && old(self).accepted_body_bytes + bytes
                        > l.max_accepted_body_bytes ==> (r matches Err(e) && is_budget_limit_error(
                        e,
                        AcquisitionLimitKind::AcceptedBodyBytes,
                        l.max_accepted_body_bytes as nat,
                        if old(self).accepted_body_bytes + bytes <= usize::MAX {
                            Some((old(self).accepted_body_bytes + bytes) as u64)
                        } else {
                            None
                        },
                    ))
                },
                None => (r is Ok <==> old(self).accepted_body_bytes + bytes <= usize::MAX),
            },
    {
        if let Some(limits) = self.byte_limits {
            if bytes > limits.max_response_bytes {
                return Err(
                    budget_limit_error(
                        AcquisitionLimitKind::ResponseBodyBytes,
                        limits.max_response_bytes,
                        Some(bytes),
                    ),
                );
            }
            let remaining = limits.max_accepted_body_bytes - self.accepted_body_bytes;
            if bytes > remaining {
                let observed = if self.accepted_body_bytes <= usize::MAX - bytes {
                    Some(self.accepted_body_bytes + bytes)
                } else {
                    None
                };
                return Err(
                    budget_limit_error(
                        AcquisitionLimitKind::AcceptedBodyBytes,
                        limits.max_accepted_body_bytes,
                        observed,
                    ),
                );
            }
        }
        if self.accepted_body_bytes > usize::MAX - bytes {
            return Err(
                ResourceError::new(
                    ErrorCategory::LimitExceeded,
                    "HTTP admitted byte counter overflow",
                ).with_details(ErrorDetails::new(ErrorReason::LimitExceeded)),
            );
        }
        self.accepted_body_bytes = self.accepted_body_bytes + bytes;
        Ok(())
    }

    /// Spends one attempt permit; refused, changing nothing, when none is left.
    pub fn charge_attempt(&mut self) -> (r: Result<(), ResourceError>)
        requires
            old(self).wf(),
        ensures
            final(self).wf(),
            r is Ok <==> old(self).remaining_attempts > 0,
            r is Ok ==> final(self).remaining_attempts == old(self).remaining_attempts - 1,
            r is Err ==> final(self).remaining_attempts == old(self).remaining_attempts,
            r matches Err(e) ==> is_budget_limit_error(
                e,
                AcquisitionLimitKind::Attempts,
                old(self).max_attempts as nat,
                if old(self).max_attempts < usize::MAX {
                    Some((old(self).max_attempts + 1) as u64)
                } else {
                    None
                },
            ),
            final(self).max_attempts == old(self).max_attempts,
            final(self).byte_limits == old(self).byte_limits,
            final(self).accepted_body_bytes == old(self).accepted_body_bytes,
            final(self).retry_available == old(self).retry_available,
    {
        if self.remaining_attempts == 0 {
            let observed = if self.max_attempts < usize::MAX {
                Some(self.max_attempts + 1)
            } else {
                None
            };
            return Err(
                budget_limit_error(AcquisitionLimitKind::Attempts, self.max_attempts, observed),
            );
        }
        self.remaining_attempts = self.remaining_attempts - 1;
        Ok(())
    }

    /// Whether the one retry permit is unspent and an attempt remains for it.
    pub fn can_retry(&self) -> (b: bool)
        ensures
            b == (self.retry_available && self.remaining_attempts > 0),
    {
        self.retry_available && self.remaining_attempts > 0
    }

    /// Spends the retry permit.
    pub fn spend_retry(&mut self)
        ensures
            !final(self).retry_available,
            final(self).remaining_attempts == old(self).remaining_attempts,
            final(self).max_attempts == old(self).max_attempts,
            final(self).byte_limits == old(self).byte_limits,
            final(self).accepted_body_bytes == old(self).accepted_body_bytes,
    {
        self.retry_available = false;
    }
}

// ------------------------------------------------------- retry decisions

/// Whether a read prepares a replay copy before its first attempt: only a
/// GET, and under a budget only while its retry permit is unspent and more
/// than one attempt remains.
pub fn prepares_replay(is_get: bool, budget: Option<&HttpReadBudget>) -> (b: bool)
    ensures
        b == (is_get && match budget {
            None => true,
            Some(bu) => bu.retry_available && bu.remaining_attempts > 1,
        }),
{
    if !is_get {
        return false;
    }
    match budget {
        None => true,
        Some(b) => b.retry_available && b.remaining_attempts > 1,
    }
}

/// After a failed attempt: replay only a retryable failure, with a replay
/// copy in hand, before the deadline.
pub fn replays_failure(retryable: bool, has_replay: bool, remaining: Span) -> (b: bool)
    requires
        remaining.wf(),
    ensures
        b == (retryable && has_replay && remaining.total() > 0),
{
    retryable && has_replay && !remaining.is_zero()
}

/// After a response: the Retry-After delay to honour before the replay, if
/// any. Only 429 and 503 with a usable delay and a replay copy qualify.
pub fn retry_delay_for(status: u16, retry_after: Option<Span>, has_replay: bool) -> (r: Option<
    Span,
>)
    ensures
        r == (if (status == 429 || status == 503) && has_replay {
            retry_after
        } else {
            None
        }),
{
    if !(status == 429 || status == 503) || !has_replay {
        return None;
    }
    retry_after
}

/// The wait before a replay: delay plus jitter when that ends strictly
/// before the deadline, otherwise `None` (the read is refused).
pub fn retry_wait(remaining: Span, delay: Span, jitter: Span) -> (r: Option<Span>)
    requires
        remaining.wf(),
        delay.wf(),
        jitter.wf(),
    ensures
        r is Some <==> delay.total() + jitter.total() <= max_span_nanos() && delay.total()
            + jitter.total() < remaining.total(),
        r matches Some(w) ==> w.wf() && w.total() == delay.total() + jitter.total() && w.total()
            < remaining.total(),
{
    if !retry_wait_fits(remaining, delay, jitter) {
        return None;
    }
    delay.checked_add(&jitter)
}

// -------------------------------------------------------------- reader mode

/// A reader-mode rendering of one complete HTML document.
#[derive(Debug, Clone)]
pub struct ReaderModeDocument {
    pub markdown: String,
    pub final_url: String,
    pub status: u16,
}

impl ReaderModeDocument {
    pub fn markdown(&self) -> (s: &str)
        ensures
            s@ == self.markdown@,
    {
        self.markdown.as_str()
    }

    pub fn final_url(&self) -> (s: &str)
        ensures
            s@ == self.final_url@,
    {
        self.final_url.as_str()
    }

    pub fn status(&self) -> (s: u16)
        ensures
            s == self.status,
    {
        self.status
    }
}

/// One DER trust anchor for test-support construction.
pub struct TestRootCertificate {
    der: Vec<u8>,
}

impl TestRootCertificate {
    pub closed spec fn spec_der(&self) -> Seq<u8> {
        self.der@
    }

    /// Holds bytes the caller has already parsed as one DER certificate.
    pub fn from_validated_der(der: &[u8]) -> (c: TestRootCertificate)
        ensures
            c.spec_der() == der@,
    {
        let mut v: Vec<u8> = Vec::new();
        let mut i: usize = 0;
        while i < der.len()
            invariant
                i <= der@.len(),
                v@ =~= der@.take(i as int),
            decreases der@.len() - i,
        {
            v.push(der[i]);
            i = i + 1;
        }
        proof {
            assert(der@.take(i as int) =~= der@);
        }
        TestRootCertificate { der: v }
    }

    pub fn as_der(&self) -> (d: &[u8])
        ensures
            d@ == self.spec_der(),
    {
        self.der.as_slice()
    }
}

/// A reader-mode refusal: `detail` plus the `:raw` recovery.
pub open spec fn reader_refusal(e: ResourceError, detail: Seq<char>) -> bool {
    e.category == ErrorCategory::UnsupportedProjection && e.message@ == detail
        + "; read it with :raw for the original bytes"@ && e.details is None
}

fn unsupported_reader_mode(detail: &[char]) -> (e: ResourceError)
    ensures
        reader_refusal(e, detail@),
{
    let mut message = string_of(detail);
    push_str(&mut message, "; read it with :raw for the original bytes");
    ResourceError::from_string(ErrorCategory::UnsupportedProjection, message)
}

/// The declared media type: the first `;`-separated part, trimmed and
/// ASCII-lower-cased.
pub open spec fn media_of(content_type: Seq<char>) -> Seq<char> {
    lower_seq(trim(split_seq(content_type, ';')[0]))
}

pub open spec fn html_media(m: Seq<char>) -> bool {
    m == "text/html"@ || m == "application/xhtml+xml"@
}

pub open spec fn decodable_charset(c: Seq<char>) -> bool {
    c == "utf-8"@ || c == "utf8"@ || c == "us-ascii"@ || c == "ascii"@
}

/// The charset a parameter declares, if it is a `charset=` parameter.
pub open spec fn charset_of(parameter: Seq<char>) -> Option<Seq<char>> {
    match split_once_seq(trim(parameter), '=') {
        None => None,
        Some((name, value)) => if eq_ignore_case(trim(name), "charset"@) {
            Some(lower_seq(trim_char(trim(value), '"')))
        } else {
            None
        },
    }
}

/// The first parameter, from index `i`, declaring a charset reader mode
/// does not decode.
pub open spec fn first_bad_charset(parts: Seq<Seq<char>>, i: int) -> Option<Seq<char>>
    decreases parts.len() - i,
{
    if i < 1 || i >= parts.len() {
        None
    } else {
        match charset_of(parts[i]) {
            Some(c) => if !decodable_charset(c) {
                Some(c)
            } else {
                first_bad_charset(parts, i + 1)
            },
            None => first_bad_charset(parts, i + 1),
        }
    }
}

/// Decodes bytes as UTF-8 (`String::from_utf8`), `None` when they are not.
#[verifier::external_body]
pub(crate) fn utf8_string(bytes: &[u8]) -> (r: Option<String>)
    ensures
        r is Some <==> vstd::utf8::valid_utf8(bytes@),
        r matches Some(s) ==> s@ == vstd::utf8::decode_utf8(bytes@),
{
    String::from_utf8(bytes.to_vec()).ok()
}

/// What reader mode renders: a body whose declared media type (if any) is
/// HTML, whose declared charsets are UTF-8 or ASCII, and which is UTF-8.
pub open spec fn reader_source_spec(
    content_type: Option<Seq<char>>,
    body: Seq<u8>,
    r: Result<String, ResourceError>,
) -> bool {
    let media_refused = match content_type {
        Some(ct) => media_of(ct).len() > 0 && !html_media(media_of(ct)),
        None => false,
    };
    let bad_charset = match content_type {
        Some(ct) => first_bad_charset(split_seq(ct, ';'), 1),
        None => None,
    };
    if media_refused {
        r matches Err(e) && reader_refusal(
            e,
            "response declares media type "@ + media_of(content_type->0)
                + ", which reader mode does not render"@,
        )
    } else if bad_charset is Some {
        r matches Err(e) && reader_refusal(
            e,
            "response declares charset "@ + bad_charset->0 + ", which reader mode does not decode"@,
        )
    } else if !vstd::utf8::valid_utf8(body) {
        r matches Err(e) && reader_refusal(e, "response body is not valid UTF-8"@)
    } else {
        r matches Ok(s) && s@ == vstd::utf8::decode_utf8(body)
    }
}

/// The charset a parameter declares (executable form of `charset_of`).
fn parameter_charset(parameter: &[char]) -> (r: Option<Vec<char>>)
    ensures
        match charset_of(parameter@) {
            None => r is None,
            Some(c) => r matches Some(v) && v@ == c,
        },
{
    let p = trim_chars(parameter);
    let mut i: usize = 0;
    while i < p.len() && p[i] != '='
        invariant
            i <= p@.len(),
            forall|k: int| 0 <= k < i ==> p@[k] != '=',
        decreases p@.len() - i,
    {
        i = i + 1;
    }
    proof {
        lemma_find_char_bounds(p@, '=');
        if i < p@.len() {
            if find_char(p@, '=') is None {
                assert(p@[i as int] == '=');
            }
            let j = find_char(p@, '=')->0;
            assert(j == i as int) by {
                if j < i {
                    assert(p@[j] != '=');
                }
            }
        } else {
            if find_char(p@, '=') is Some {
                let j = find_char(p@, '=')->0;
                assert(p@[j] != '=');
            }
        }
    }
    if i == p.len() {
        return None;
    }
    let name = sub_chars(&p, 0, i);
    let value = sub_chars(&p, i + 1, p.len());
    proof {
        assert(name@ =~= p@.take(i as int));
        assert(value@ =~= p@.skip(i + 1));
    }
    let tn = trim_chars(&name);
    let charset = chars_of("charset");
    if !chars_eq_ignore_case(&tn, &charset) {
        return None;
    }
    let tv = trim_chars(&value);
    let unquoted = trim_char_chars(&tv, '"');
    Some(lower_chars(&unquoted))
}

/// Whether a charset is one reader mode decodes.
fn is_decodable_charset(c: &[char]) -> (b: bool)
    ensures
        b == decodable_charset(c@),
{
    chars_eq_str(c, "utf-8") || chars_eq_str(c, "utf8") || chars_eq_str(c, "us-ascii")
        || chars_eq_str(c, "ascii")
}

/// The HTML source of a response, or the reader-mode refusal for a body
/// that is not an HTML document in UTF-8.
pub fn reader_mode_source(content_type: Option<&str>, body: &[u8]) -> (r: Result<
    String,
    ResourceError,
>)
    ensures
        reader_source_spec(
            match content_type {
                Some(ct) => Some(ct@),
                None => None,
            },
            body@,
            r,
        ),
{
    if let Some(ct) = content_type {
        let chars = chars_of(ct);
        let parts = split_chars(&chars, ';');
        proof {
            assert(views(parts@).len() >= 1) by {
                lemma_split_nonempty(chars@, ';');
            }
            assert(parts@[0]@ == split_seq(chars@, ';')[0]);
        }
        let media = lower_chars(&trim_chars(&parts[0]));
        if media.len() > 0 && !(chars_eq_str(&media, "text/html") || chars_eq_str(
            &media,
            "application/xhtml+xml",
        )) {
            let mut detail: Vec<char> = chars_of("response declares media type ");
            let mut k: usize = 0;
            while k < media.len()
                invariant
                    k <= media@.len(),
                    detail@ == "response declares media type "@ + media@.take(k as int),
                decreases media@.len() - k,
            {
                detail.push(media[k]);
                k = k + 1;
                proof {
                    assert(media@.take(k as int) =~= media@.take(k - 1).push(media@[k - 1]));
                }
            }
            let tail = chars_of(", which reader mode does not render");
            let mut k2: usize = 0;
            while k2 < tail.len()
                invariant
                    k2 <= tail@.len(),
                    detail@ == "response declares media type "@ + media@
                        + tail@.take(k2 as int),
                    media@.take(media@.len() as int) == media@,
                decreases tail@.len() - k2,
            {
                detail.push(tail[k2]);
                k2 = k2 + 1;
                proof {
                    assert(tail@.take(k2 as int) =~= tail@.take(k2 - 1).push(tail@[k2 - 1]));
                }
            }
            proof {
                assert(media@.take(media@.len() as int) =~= media@);
                assert(tail@.take(tail@.len() as int) =~= tail@);
            }
            return Err(unsupported_reader_mode(&detail));
        }
        let mut i: usize = 1;
        while i < parts.len()
            invariant
                1 <= i <= parts@.len(),
                content_type == Some(ct),
                chars@ == ct@,
                !(media_of(chars@).len() > 0 && !html_media(media_of(chars@))),
                views(parts@) == split_seq(chars@, ';'),
                first_bad_charset(views(parts@), 1) == first_bad_charset(views(parts@), i as int),
            decreases parts@.len() - i,
        {
            proof {
                assert(views(parts@)[i as int] == parts@[i as int]@);
            }
            let found = parameter_charset(&parts[i]);
            proof {
                if found is None {
                    assert(first_bad_charset(views(parts@), i as int) == first_bad_charset(
                        views(parts@),
                        i + 1,
                    ));
                } else if decodable_charset(found->0@) {
                    assert(first_bad_charset(views(parts@), i as int) == first_bad_charset(
                        views(parts@),
                        i + 1,
                    ));
                }
            }
            if let Some(charset) = found {
                if !is_decodable_charset(&charset) {
                    proof {
                        assert(first_bad_charset(views(parts@), i as int) == Some(charset@));
                    }
                    let mut detail: Vec<char> = chars_of("response declares charset ");
                    let ghost head = detail@;
                    let mut k: usize = 0;
                    while k < charset.len()
                        invariant
                            k <= charset@.len(),
                            detail@ == head + charset@.take(k as int),
                        decreases charset@.len() - k,
                    {
                        detail.push(charset[k]);
                        k = k + 1;
                        proof {
                            assert(charset@.take(k as int) =~= charset@.take(k - 1).push(
                                charset@[k - 1],
                            ));
                        }
                    }
                    proof {
                        assert(charset@.take(charset@.len() as int) =~= charset@);
                    }
                    let tail = chars_of(", which reader mode does not decode");
                    let ghost mid = detail@;
                    let mut k2: usize = 0;
                    while k2 < tail.len()
                        invariant
                            k2 <= tail@.len(),
                            detail@ == mid + tail@.take(k2 as int),
                        decreases tail@.len() - k2,
                    {
                        detail.push(tail[k2]);
                        k2 = k2 + 1;
                        proof {
                            assert(tail@.take(k2 as int) =~= tail@.take(k2 - 1).push(tail@[k2 - 1]));
                        }
                    }
                    proof {
                        assert(tail@.take(tail@.len() as int) =~= tail@);
                        assert(detail@ =~= "response declares charset "@ + charset@
                            + ", which reader mode does not decode"@);
                    }
                    let e = unsupported_reader_mode(&detail);
                    proof {
                        assert(split_seq(ct@, ';') == views(parts@));
                        assert(first_bad_charset(split_seq(ct@, ';'), 1) == Some(charset@));
                        assert(e.message@ == "response declares charset "@ + charset@
                            + ", which reader mode does not decode"@
                            + "; read it with :raw for the original bytes"@);
                    }
                    return Err(e);
                }
            }
            i = i + 1;
        }
    }
    match utf8_string(body) {
        Some(s) => Ok(s),
        None => {
            let detail = chars_of("response body is not valid UTF-8");
            Err(unsupported_reader_mode(&detail))
        },
    }
}

pub proof fn lemma_split_nonempty(s: Seq<char>, d: char)
    ensures
        split_seq(s, d).len() >= 1,
    decreases s.len(),
{
    lemma_find_char_bounds(s, d);
    if let Some(i) = find_char(s, d) {
        if 0 <= i < s.len() {
            lemma_split_nonempty(s.skip(i + 1), d);
        }
    }
}

// ---------------------------------------------------- Basic credentials

/// Unicode general category Cc, which `char::is_control` reports.
pub open spec fn is_control_char(c: char) -> bool {
    (c as u32) <= 0x1f || (0x7f <= (c as u32) && (c as u32) <= 0x9f)
}

/// The standard-alphabet, padded Base64 text of `bytes`, as the `base64`
/// crate's `STANDARD` engine writes it.
pub uninterp spec fn base64_standard(bytes: Seq<u8>) -> Seq<char>;

/// Appends the `STANDARD` Base64 encoding of `bytes` (`Engine::encode_string`).
#[verifier::external_body]
fn push_base64(out: &mut String, bytes: &[u8])
    ensures
        final(out)@ == old(out)@ + base64_standard(bytes@),
{
    base64::engine::general_purpose::STANDARD.encode_string(bytes, out);
}

/// Whether a Basic username is usable: non-empty, without `:` or control
/// characters.
pub open spec fn basic_username_ok(u: Seq<char>) -> bool {
    u.len() > 0 && forall|i: int| 0 <= i < u.len() ==> #[trigger] u[i] != ':' && !is_control_char(
        u[i],
    )
}

/// Base64 length of `n` bytes: `(n + 2) / 3 * 4`.
pub open spec fn base64_len(n: nat) -> nat {
    (n + 2) / 3 * 4
}

/// The header value `Basic <base64(username:secret)>`, refused for an
/// unusable username or when it would exceed the 16 KiB header ceiling.
pub fn basic_credential_value(username: &str, secret: &str) -> (r: Result<String, ResourceError>)
    ensures
        !basic_username_ok(username@) ==> (r matches Err(e) && e.category
            == ErrorCategory::InvalidReference),
        basic_username_ok(username@) ==> {
            let raw = username.spec_bytes() + seq![58u8] + secret.spec_bytes();
            &&& (r is Ok <==> base64_len(raw.len()) + 6 <= MAX_SOURCE_REQUEST_HEADER_BYTES)
            &&& r matches Ok(v) ==> v@ == "Basic "@ + base64_standard(raw)
            &&& r matches Err(e) ==> e.category == ErrorCategory::LimitExceeded && e.message@
                == "Basic credential exceeds the bounded request-header ceiling"@
        },
{
    let u = chars_of(username);
    let mut i: usize = 0;
    let mut ok = u.len() > 0;
    while i < u.len()
        invariant
            i <= u@.len(),
            u@ == username@,
            ok == (u@.len() > 0 && forall|k: int| 0 <= k < i ==> #[trigger] u@[k] != ':'
                && !is_control_char(u@[k])),
        decreases u@.len() - i,
    {
        let c = u[i];
        let cu = c as u32;
        if c == ':' || cu <= 0x1f || (0x7f <= cu && cu <= 0x9f) {
            ok = false;
        }
        i = i + 1;
    }
    if !ok {
        return Err(
            ResourceError::new(
                ErrorCategory::InvalidReference,
                "Basic credential username must be non-empty and contain neither ':' nor control characters",
            ),
        );
    }
    let ub = username.as_bytes();
    let sb = secret.as_bytes();
    let raw_len: u128 = ub.len() as u128 + 1 + sb.len() as u128;
    let encoded: u128 = (raw_len + 2) / 3 * 4;
    proof {
        assert(ub@.len() == username.spec_bytes().len());
    }
    if encoded + 6 > MAX_SOURCE_REQUEST_HEADER_BYTES as u128 {
        return Err(
            ResourceError::new(
                ErrorCategory::LimitExceeded,
                "Basic credential exceeds the bounded request-header ceiling",
            ),
        );
    }
    let mut raw: Vec<u8> = Vec::new();
    let mut k: usize = 0;
    while k < ub.len()
        invariant
            k <= ub@.len(),
            raw@ =~= ub@.take(k as int),
        decreases ub@.len() - k,
    {
        raw.push(ub[k]);
        k = k + 1;
    }
    proof {
        assert(ub@.take(k as int) =~= ub@);
    }
    raw.push(58u8);
    let ghost head = raw@;
    let mut k2: usize = 0;
    while k2 < sb.len()
        invariant
            k2 <= sb@.len(),
            raw@ =~= head + sb@.take(k2 as int),
        decreases sb@.len() - k2,
    {
        raw.push(sb[k2]);
        k2 = k2 + 1;
    }
    proof {
        assert(sb@.take(k2 as int) =~= sb@);
    }
    proof {
        assert(raw@ =~= username.spec_bytes() + seq![58u8] + secret.spec_bytes());
    }
    let mut composed = String::new();
    push_str(&mut composed, "Basic ");
    push_base64(&mut composed, raw.as_slice());
    proof {
        assert(composed@ =~= "Basic "@ + base64_standard(username.spec_bytes() + seq![58u8]
            + secret.spec_bytes()));
    }
    zero_fill(&mut raw);
    Ok(composed)
}

/// Overwrites every byte with zero, so the raw credential does not linger.
pub fn zero_fill(v: &mut Vec<u8>)
    ensures
        final(v)@.len() == old(v)@.len(),
        forall|i: int| 0 <= i < final(v)@.len() ==> final(v)@[i] == 0,
{
    let mut i: usize = 0;
    while i < v.len()
        invariant
            i <= v@.len(),
            v@.len() == old(v)@.len(),
            forall|k: int| 0 <= k < i ==> v@[k] == 0,
        decreases v@.len() - i,
    {
        v.set(i, 0);
        i = i + 1;
    }
}

} // verus!
