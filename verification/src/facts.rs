//! Decisions of the pull-request facts reads: which fields an upstream
//! record left out, which failures a later page may retry, the sizes of
//! base64 cursors and blobs, and the decoding of percent-escaped route
//! segments.
use vstd::prelude::*;
use crate::error::{
    AcquisitionLimitKind, ErrorCategory, ErrorDetails, ErrorReason, LimitDetail, ResourceError,
};
use crate::http::utf8_string;
use crate::text::{chars_eq_str, chars_of, owned};
use vstd::string::StringSliceAdditionalSpecFns;

verus! {

broadcast use vstd::string::group_string_axioms;

// ---------------------------------------------------------------- presence

/// A JSON field as decoded: left out, `null`, or present.
#[derive(Debug)]
pub enum Presence<T> {
    Omitted,
    Null,
    Present(T),
}

/// A field the facts report as unavailable, and why.
#[derive(Debug, Clone, Copy)]
pub struct Unavailable {
    pub field: &'static str,
    pub reason: &'static str,
}

impl<T> Presence<T> {
    pub fn omitted(&self) -> (b: bool)
        ensures
            b == (self is Omitted),
    {
        match self {
            Presence::Omitted => true,
            _ => false,
        }
    }

    pub fn value(&self) -> (r: Option<&T>)
        ensures
            match self {
                Presence::Present(v) => r == Some(v),
                _ => r is None,
            },
    {
        match self {
            Presence::Present(value) => Some(value),
            _ => None,
        }
    }

    pub open spec fn spec_availability(&self) -> Seq<char> {
        match self {
            Presence::Omitted => "omitted"@,
            Presence::Null => "null"@,
            Presence::Present(_) => "present"@,
        }
    }

    pub fn availability(&self) -> (s: &'static str)
        ensures
            s@ == self.spec_availability(),
    {
        match self {
            Presence::Omitted => "omitted",
            Presence::Null => "null",
            Presence::Present(_) => "present",
        }
    }

    /// Records `field` as unavailable unless it is present.
    pub fn unavailable(&self, field: &'static str, output: &mut Vec<Unavailable>)
        ensures
            entry_views(final(output)@) == note(
                entry_views(old(output)@),
                field@,
                self is Present,
                self.spec_availability(),
            ),
            self is Present ==> final(output)@ == old(output)@,
            !(self is Present) ==> final(output)@.len() == old(output)@.len() + 1 && final(output)@.take(
                old(output)@.len() as int,
            ) == old(output)@ && final(output)@.last().field == field && final(output)@.last().reason@
                == self.spec_availability(),
    {
        match self {
            Presence::Present(_) => {},
            _ => {
                let ghost before = output@;
                output.push(Unavailable { field, reason: self.availability() });
                proof {
                    assert(output@.take(before.len() as int) =~= before);
                    assert(entry_views(output@) =~= entry_views(before).push((field@, self.spec_availability())));
                }
            },
        }
    }
}

/// The (field, reason) pairs of an unavailability list.
pub open spec fn entry_views(v: Seq<Unavailable>) -> Seq<(Seq<char>, Seq<char>)> {
    v.map_values(|u: Unavailable| (u.field@, u.reason@))
}

/// `list` with `(name, availability)` added unless the field is present.
pub open spec fn note(
    list: Seq<(Seq<char>, Seq<char>)>,
    name: Seq<char>,
    present: bool,
    availability: Seq<char>,
) -> Seq<(Seq<char>, Seq<char>)> {
    if present {
        list
    } else {
        list.push((name, availability))
    }
}

pub open spec fn same_entry(a: Unavailable, b: Unavailable) -> bool {
    a.field@ == b.field@ && a.reason@ == b.reason@
}

/// `list` holds an entry equal to `e`.
pub open spec fn noted(list: Seq<Unavailable>, e: Unavailable) -> bool {
    exists|j: int| 0 <= j < list.len() && #[trigger] same_entry(list[j], e)
}

/// Adds each entry of `from` to `into` unless an equal one is there.
pub fn note_unavailable(into: &mut Vec<Unavailable>, from: &[Unavailable])
    ensures
        old(into)@.len() <= final(into)@.len(),
        final(into)@.take(old(into)@.len() as int) == old(into)@,
        forall|i: int| 0 <= i < from@.len() ==> #[trigger] noted(final(into)@, from@[i]),
        forall|j: int| old(into)@.len() <= j < final(into)@.len() ==> #[trigger] noted(from@, final(into)@[j]),
{
    let ghost start = into@;
    let mut k: usize = 0;
    while k < from.len()
        invariant
            k <= from@.len(),
            start.len() <= into@.len(),
            into@.take(start.len() as int) == start,
            forall|i: int| 0 <= i < k ==> #[trigger] noted(into@, from@[i]),
            forall|j: int| start.len() <= j < into@.len() ==> #[trigger] noted(from@, into@[j]),
        decreases from@.len() - k,
    {
        let entry = from[k];
        let mut found = false;
        let mut j: usize = 0;
        while j < into.len()
            invariant
                j <= into@.len(),
                found ==> noted(into@, entry),
            decreases into@.len() - j,
        {
            let f = chars_of(into[j].field);
            let r = chars_of(into[j].reason);
            if chars_eq_str(f.as_slice(), entry.field) && chars_eq_str(r.as_slice(), entry.reason) {
                proof {
                    assert(same_entry(into@[j as int], entry));
                }
                found = true;
            }
            j = j + 1;
        }
        if !found {
            let ghost before = into@;
            into.push(entry);
            proof {
                assert(into@.take(start.len() as int) =~= before.take(start.len() as int));
                assert(same_entry(into@[into@.len() - 1], from@[k as int]));
                assert forall|i: int| 0 <= i < k implies #[trigger] noted(into@, from@[i]) by {
                    assert(noted(before, from@[i]));
                    let m = choose|m: int| 0 <= m < before.len() && #[trigger] same_entry(before[m], from@[i]);
                    assert(into@[m] == before[m]);
                }
                assert forall|m: int| start.len() <= m < into@.len() implies #[trigger] noted(from@, into@[m]) by {
                    if m < before.len() {
                        assert(into@[m] == before[m]);
                        assert(noted(from@, before[m]));
                    } else {
                        assert(same_entry(from@[k as int], into@[m]));
                    }
                }
            }
        }
        proof {
            assert(same_entry(entry, from@[k as int]));
            assert(noted(into@, from@[k as int]));
        }
        k = k + 1;
    }
}

// ------------------------------------------------------------------ sizes

/// The length of the padding-free base64 encoding of `raw` bytes.
pub open spec fn base64_unpadded_len(raw: nat) -> nat {
    (raw / 3) * 4 + if raw % 3 == 0 {
        0nat
    } else if raw % 3 == 1 {
        2nat
    } else {
        3nat
    }
}

/// The unpadded base64 length of `raw` bytes, if it fits in `usize`.
pub fn base64_len(raw: usize) -> (r: Option<usize>)
    ensures
        match r {
            Some(n) => n == base64_unpadded_len(raw as nat),
            None => base64_unpadded_len(raw as nat) > usize::MAX,
        },
{
    let q = raw / 3;
    let times = match q.checked_mul(4) {
        Some(t) => t,
        None => {
            proof {
                assert(base64_unpadded_len(raw as nat) >= q * 4);
            }
            return None;
        },
    };
    let tail: usize = if raw % 3 == 0 {
        0
    } else if raw % 3 == 1 {
        2
    } else {
        3
    };
    times.checked_add(tail)
}

/// The most raw bytes whose unpadded base64 encoding fits in
/// `encoded_limit` characters.
pub open spec fn raw_capacity(encoded_limit: nat) -> nat {
    (encoded_limit / 4) * 3 + if encoded_limit % 4 == 2 {
        1nat
    } else if encoded_limit % 4 == 3 {
        2nat
    } else {
        0nat
    }
}

pub fn raw_limit(encoded_limit: usize) -> (r: Option<usize>)
    ensures
        match r {
            Some(n) => n == raw_capacity(encoded_limit as nat),
            None => raw_capacity(encoded_limit as nat) > usize::MAX,
        },
{
    let quotient = encoded_limit / 4;
    let remainder = encoded_limit % 4;
    let times = match quotient.checked_mul(3) {
        Some(t) => t,
        None => {
            return None;
        },
    };
    let extra: usize = if remainder == 2 {
        1
    } else if remainder == 3 {
        2
    } else {
        0
    };
    times.checked_add(extra)
}

/// Law: the raw capacity of a limit encodes within it, and one more byte
/// would not.
pub proof fn lemma_raw_capacity_is_tight(limit: nat)
    ensures
        base64_unpadded_len(raw_capacity(limit)) <= limit,
        base64_unpadded_len(raw_capacity(limit) + 1) > limit,
{
    let q = limit / 4;
    let r = limit % 4;
    assert(limit == q * 4 + r);
    if r == 0 || r == 1 {
        assert(raw_capacity(limit) == q * 3);
        assert((q * 3) / 3 == q && (q * 3) % 3 == 0) by (nonlinear_arith);
        assert((q * 3 + 1) / 3 == q && (q * 3 + 1) % 3 == 1) by (nonlinear_arith);
    } else if r == 2 {
        assert(raw_capacity(limit) == q * 3 + 1);
        assert((q * 3 + 1) / 3 == q && (q * 3 + 1) % 3 == 1) by (nonlinear_arith);
        assert((q * 3 + 2) / 3 == q && (q * 3 + 2) % 3 == 2) by (nonlinear_arith);
    } else {
        assert(raw_capacity(limit) == q * 3 + 2);
        assert((q * 3 + 2) / 3 == q && (q * 3 + 2) % 3 == 2) by (nonlinear_arith);
        assert((q * 3 + 3) / 3 == q + 1 && (q * 3 + 3) % 3 == 0) by (nonlinear_arith);
    }
}

// ------------------------------------------------------------- failures

pub open spec fn is_facts_failure(e: ResourceError, reason: ErrorReason) -> bool {
    e.category == ErrorCategory::SourceUnavailable && e.message@ == "GitHub facts could not be accepted"@
        && e.details == Some(ErrorDetails::new_spec(reason))
}

/// A facts record that cannot be accepted, with its reason.
pub fn failure(reason: ErrorReason) -> (e: ResourceError)
    ensures
        is_facts_failure(e, reason),
{
    ResourceError::new(ErrorCategory::SourceUnavailable, "GitHub facts could not be accepted").with_details(
        ErrorDetails::new(reason),
    )
}

/// A login names one account: neither empty nor a dot segment.
pub fn require_login(login: &str) -> (r: Result<(), ResourceError>)
    ensures
        if login@.len() == 0 || login@ == "."@ || login@ == ".."@ {
            r matches Err(e) && is_facts_failure(e, ErrorReason::UpstreamMalformed)
        } else {
            r is Ok
        },
{
    let l = chars_of(login);
    if l.len() == 0 || chars_eq_str(l.as_slice(), ".") || chars_eq_str(l.as_slice(), "..") {
        return Err(failure(ErrorReason::UpstreamMalformed));
    }
    Ok(())
}

/// A failure that a later page of the same collection could not avoid.
pub open spec fn spec_rejects_every_page(e: ResourceError) -> bool {
    e.category == ErrorCategory::Cancelled || e.category == ErrorCategory::PermissionDenied || (
    e.details matches Some(d) && d.reason == ErrorReason::UpstreamIdentityMismatch)
}

pub fn rejects_every_page(error: &ResourceError) -> (b: bool)
    ensures
        b == spec_rejects_every_page(*error),
{
    match error.category {
        ErrorCategory::Cancelled | ErrorCategory::PermissionDenied => true,
        _ => match error.details {
            Some(d) => match d.reason {
                ErrorReason::UpstreamIdentityMismatch => true,
                _ => false,
            },
            None => false,
        },
    }
}

/// Whether a failed page may be retried by a fresh read: never a malformed
/// record; an attempt or time limit, or an accepted-bytes limit a fresh read
/// of this page and its parent would fit; otherwise an unavailable upstream.
pub open spec fn spec_retryable(e: ResourceError, accepted: nat, parent_body_bytes: nat) -> bool {
    if e.details matches Some(d) && d.reason == ErrorReason::UpstreamMalformed {
        false
    } else if e.category == ErrorCategory::LimitExceeded {
        match e.details {
            Some(d) => match d.limit {
                Some(limit) => match limit.kind {
                    AcquisitionLimitKind::Attempts | AcquisitionLimitKind::ElapsedNanoseconds => true,
                    AcquisitionLimitKind::AcceptedBodyBytes => match limit.observed {
                        Some(observed) => observed >= accepted && observed - accepted + parent_body_bytes
                            <= u64::MAX && observed - accepted + parent_body_bytes <= limit.bound,
                        None => false,
                    },
                    _ => false,
                },
                None => false,
            },
            None => false,
        }
    } else {
        e.category == ErrorCategory::SourceUnavailable
    }
}

pub fn retryable(error: &ResourceError, accepted_body_bytes: usize, parent_body_bytes: usize) -> (b: bool)
    ensures
        b == spec_retryable(*error, accepted_body_bytes as nat, parent_body_bytes as nat),
{
    let malformed = match error.details {
        Some(d) => match d.reason {
            ErrorReason::UpstreamMalformed => true,
            _ => false,
        },
        None => false,
    };
    if malformed {
        return false;
    }
    match error.category {
        ErrorCategory::LimitExceeded => {
            let limit = match error.details {
                Some(d) => match d.limit {
                    Some(l) => l,
                    None => {
                        return false;
                    },
                },
                None => {
                    return false;
                },
            };
            match limit.kind {
                AcquisitionLimitKind::Attempts | AcquisitionLimitKind::ElapsedNanoseconds => true,
                AcquisitionLimitKind::AcceptedBodyBytes => match limit.observed {
                    Some(observed) => match observed.checked_sub(accepted_body_bytes as u64) {
                        Some(page_bytes) => match page_bytes.checked_add(parent_body_bytes as u64) {
                            Some(fresh) => fresh <= limit.bound,
                            None => false,
                        },
                        None => false,
                    },
                    None => false,
                },
                _ => false,
            }
        },
        ErrorCategory::SourceUnavailable => true,
        _ => false,
    }
}

/// The limit refusal of a collection that crossed one of its own bounds.
pub fn local_limit_error(kind: AcquisitionLimitKind, bound: usize, observed: usize) -> (e: ResourceError)
    ensures
        e.category == ErrorCategory::LimitExceeded,
        e.message@ == "GitHub collection exceeds its local admission limit"@,
        e.details == Some(
            ErrorDetails {
                limit: Some(LimitDetail { kind, bound: bound as u64, observed: Some(observed as u64) }),
                ..ErrorDetails::new_spec(ErrorReason::LimitExceeded)
            },
        ),
{
    let detail = LimitDetail { kind, bound: bound as u64, observed: Some(observed as u64) };
    let mut details = ErrorDetails::new(ErrorReason::LimitExceeded);
    details.limit = Some(detail);
    ResourceError::new(ErrorCategory::LimitExceeded, "GitHub collection exceeds its local admission limit").with_details(
        details,
    )
}

/// A byte buffer that accepts whole writes up to a fixed limit. A write
/// that would cross the limit is refused, leaves the bytes as they were and
/// marks the buffer exceeded, so a serializer fed through it can never grow
/// it past the limit.
pub struct BoundedWriter {
    pub bytes: Vec<u8>,
    pub limit: usize,
    pub exceeded: bool,
}

impl BoundedWriter {
    pub fn new(limit: usize) -> (w: Self)
        ensures
            w.bytes@ == Seq::<u8>::empty(),
            w.limit == limit,
            !w.exceeded,
    {
        BoundedWriter { bytes: Vec::new(), limit, exceeded: false }
    }

    /// Appends `bytes` when the total stays within the limit; otherwise
    /// refuses and records that the limit was crossed.
    pub fn write(&mut self, bytes: &[u8]) -> (accepted: bool)
        ensures
            accepted == (old(self).bytes@.len() + bytes@.len() <= old(self).limit),
            final(self).limit == old(self).limit,
            accepted ==> final(self).bytes@ == old(self).bytes@ + bytes@ && final(self).exceeded
                == old(self).exceeded,
            !accepted ==> final(self).bytes@ == old(self).bytes@ && final(self).exceeded,
            old(self).bytes@.len() <= old(self).limit ==> final(self).bytes@.len() <= final(self).limit,
    {
        if bytes.len() > self.limit || self.bytes.len() > self.limit - bytes.len() {
            self.exceeded = true;
            return false;
        }
        let ghost start = self.bytes@;
        let mut i: usize = 0;
        while i < bytes.len()
            invariant
                i <= bytes@.len(),
                self.bytes@ == start + bytes@.take(i as int),
                self.limit == old(self).limit,
                self.exceeded == old(self).exceeded,
            decreases bytes@.len() - i,
        {
            self.bytes.push(bytes[i]);
            proof {
                assert(start + bytes@.take(i + 1) =~= (start + bytes@.take(i as int)).push(bytes@[i as int]));
            }
            i = i + 1;
        }
        proof {
            assert(bytes@.take(bytes@.len() as int) =~= bytes@);
        }
        true
    }
}

/// The refusal of a facts document whose rendering crossed `cap` bytes.
pub open spec fn is_representation_overflow(e: ResourceError, cap: usize) -> bool {
    e.category == ErrorCategory::LimitExceeded && e.message@ == "GitHub facts representation exceeds its limit"@
        && e.details == Some(
        ErrorDetails {
            limit: Some(
                LimitDetail { kind: AcquisitionLimitKind::RepresentationBytes, bound: cap as u64, observed: None },
            ),
            ..ErrorDetails::new_spec(ErrorReason::LimitExceeded)
        },
    )
}

/// The facts document a serializer wrote through `writer`: refused as over
/// the representation limit when the writer refused a write, as malformed
/// when the serializer failed otherwise or wrote bytes that are not UTF-8;
/// a document that stands is published only when the read is still
/// accepted (`acceptance`: not cancelled, within its deadline), else the
/// read's own refusal stands.
pub fn finish_facts(writer: BoundedWriter, serialized: bool, acceptance: Result<(), ResourceError>) -> (r: Result<
    String,
    ResourceError,
>)
    ensures
        !serialized && writer.exceeded ==> (r matches Err(e) && is_representation_overflow(e, writer.limit)),
        !serialized && !writer.exceeded ==> (r matches Err(e) && is_facts_failure(e, ErrorReason::UpstreamMalformed)),
        serialized && !vstd::utf8::valid_utf8(writer.bytes@) ==> (r matches Err(e) && is_facts_failure(
            e,
            ErrorReason::UpstreamMalformed,
        )),
        serialized && vstd::utf8::valid_utf8(writer.bytes@) ==> match acceptance {
            Ok(_) => r matches Ok(s) && s@ == vstd::utf8::decode_utf8(writer.bytes@),
            Err(a) => r == Err::<String, ResourceError>(a),
        },
{
    if !serialized {
        if writer.exceeded {
            let mut details = ErrorDetails::new(ErrorReason::LimitExceeded);
            details.limit = Some(
                LimitDetail { kind: AcquisitionLimitKind::RepresentationBytes, bound: writer.limit as u64, observed: None },
            );
            return Err(
                ResourceError::new(ErrorCategory::LimitExceeded, "GitHub facts representation exceeds its limit")
                    .with_details(details),
            );
        }
        return Err(failure(ErrorReason::UpstreamMalformed));
    }
    let content = match utf8_string(writer.bytes.as_slice()) {
        Some(s) => s,
        None => {
            return Err(failure(ErrorReason::UpstreamMalformed));
        },
    };
    match acceptance {
        Ok(_) => Ok(content),
        Err(a) => Err(a),
    }
}

pub open spec fn spec_is_representation_limit(e: ResourceError) -> bool {
    e.category == ErrorCategory::LimitExceeded && (e.details matches Some(d) && (d.limit matches Some(l)
        && l.kind == AcquisitionLimitKind::RepresentationBytes))
}

pub fn is_representation_limit(error: &ResourceError) -> (b: bool)
    ensures
        b == spec_is_representation_limit(*error),
{
    match error.category {
        ErrorCategory::LimitExceeded => match error.details {
            Some(d) => match d.limit {
                Some(l) => match l.kind {
                    AcquisitionLimitKind::RepresentationBytes => true,
                    _ => false,
                },
                None => false,
            },
            None => false,
        },
        _ => false,
    }
}

// ------------------------------------------------------------- sanitizing

/// The reason a sanitized refusal of an upstream answer carries when it had
/// none, by category; `None` for a category that describes the request.
pub open spec fn sanitized_reason(category: ErrorCategory) -> Option<ErrorReason> {
    match category {
        ErrorCategory::Cancelled => Some(ErrorReason::Cancelled),
        ErrorCategory::PermissionDenied => Some(ErrorReason::UpstreamDenied),
        ErrorCategory::LimitExceeded => Some(ErrorReason::LimitExceeded),
        ErrorCategory::NotFound => Some(ErrorReason::UpstreamNotFoundOrHidden),
        ErrorCategory::SourceUnavailable => Some(ErrorReason::UpstreamUnavailable),
        _ => None,
    }
}

/// Withholds what the upstream said: a refusal carrying an upstream answer
/// keeps its category and details (or gains a reason) under a fixed
/// sentence; any other refusal is the adapter's own and stays as it is.
pub fn sanitize(error: ResourceError) -> (e: ResourceError)
    ensures
        match sanitized_reason(error.category) {
            None => e == error,
            Some(reason) => e.category == error.category && e.message@ == "GitHub facts read failed"@
                && e.details == Some(
                match error.details {
                    Some(d) => d,
                    None => ErrorDetails::new_spec(reason),
                },
            ),
        },
{
    let reason = match error.category {
        ErrorCategory::Cancelled => ErrorReason::Cancelled,
        ErrorCategory::PermissionDenied => ErrorReason::UpstreamDenied,
        ErrorCategory::LimitExceeded => ErrorReason::LimitExceeded,
        ErrorCategory::NotFound => ErrorReason::UpstreamNotFoundOrHidden,
        ErrorCategory::SourceUnavailable => ErrorReason::UpstreamUnavailable,
        _ => {
            return error;
        },
    };
    let sanitized = ResourceError::new(error.category, "GitHub facts read failed");
    match error.details {
        Some(d) => sanitized.with_details(d),
        None => sanitized.with_details(ErrorDetails::new(reason)),
    }
}

/// Whether a failure fetching the blob of a verified path still lets the
/// verified identity be published: an outage, rate limit, dropped
/// connection, denial or hidden object of that one request.
pub open spec fn spec_retains_verified_metadata(e: ResourceError) -> bool {
    match e.details {
        Some(d) => match e.category {
            ErrorCategory::SourceUnavailable => d.reason == ErrorReason::UpstreamUnavailable || d.reason
                == ErrorReason::UpstreamRateLimited || d.reason == ErrorReason::TransportFailure,
            ErrorCategory::PermissionDenied => d.reason == ErrorReason::UpstreamDenied,
            ErrorCategory::NotFound => d.reason == ErrorReason::UpstreamNotFoundOrHidden,
            _ => false,
        },
        None => false,
    }
}

pub fn retains_verified_metadata(error: &ResourceError) -> (b: bool)
    ensures
        b == spec_retains_verified_metadata(*error),
{
    let reason = match error.details {
        Some(d) => d.reason,
        None => {
            return false;
        },
    };
    match error.category {
        ErrorCategory::SourceUnavailable => match reason {
            ErrorReason::UpstreamUnavailable | ErrorReason::UpstreamRateLimited | ErrorReason::TransportFailure => true,
            _ => false,
        },
        ErrorCategory::PermissionDenied => match reason {
            ErrorReason::UpstreamDenied => true,
            _ => false,
        },
        ErrorCategory::NotFound => match reason {
            ErrorReason::UpstreamNotFoundOrHidden => true,
            _ => false,
        },
        _ => false,
    }
}

// ------------------------------------------------------- route segments

/// The value of an ASCII hexadecimal digit.
pub open spec fn hex_value(b: u8) -> Option<u8> {
    if 48 <= b <= 57 {
        Some((b - 48) as u8)
    } else if 97 <= b <= 102 {
        Some((b - 87) as u8)
    } else if 65 <= b <= 70 {
        Some((b - 55) as u8)
    } else {
        None
    }
}

pub fn hex_nibble(b: u8) -> (r: Option<u8>)
    ensures
        r == hex_value(b),
{
    if 48 <= b && b <= 57 {
        Some(b - 48)
    } else if 97 <= b && b <= 102 {
        Some(b - 87)
    } else if 65 <= b && b <= 70 {
        Some(b - 55)
    } else {
        None
    }
}

/// The bytes `%XX` escapes stand for; `None` when a `%` is not followed by
/// two hexadecimal digits.
pub open spec fn percent_decode(b: Seq<u8>) -> Option<Seq<u8>>
    decreases b.len(),
{
    if b.len() == 0 {
        Some(Seq::empty())
    } else if b[0] == 37 {
        if b.len() >= 3 && hex_value(b[1]) is Some && hex_value(b[2]) is Some {
            match percent_decode(b.skip(3)) {
                Some(r) => Some(seq![(hex_value(b[1])->0 * 16 + hex_value(b[2])->0) as u8] + r),
                None => None,
            }
        } else {
            None
        }
    } else {
        match percent_decode(b.drop_first()) {
            Some(r) => Some(seq![b[0]] + r),
            None => None,
        }
    }
}

/// The text a route segment spells: itself without `%`, else its decoded
/// bytes when they are UTF-8; `None` for a malformed escape or invalid text.
pub open spec fn decoded_segment(s: Seq<char>) -> Option<Seq<char>> {
    let b = vstd::utf8::encode_utf8(s);
    if !b.contains(37u8) {
        Some(s)
    } else {
        match percent_decode(b) {
            Some(d) => if vstd::utf8::valid_utf8(d) {
                Some(vstd::utf8::decode_utf8(d))
            } else {
                None
            },
            None => None,
        }
    }
}

/// A percent-encoded route segment as text: unchanged without `%`, else its
/// decoded bytes, which must be UTF-8.
pub fn decode_segment(segment: &str) -> (r: Result<String, ResourceError>)
    ensures
        match decoded_segment(segment@) {
            Some(d) => r matches Ok(s) && s@ == d,
            None => r matches Err(e) && is_facts_failure(e, ErrorReason::UpstreamMalformed),
        },
        !segment.spec_bytes().contains(37u8) ==> (r matches Ok(s) && s@ == segment@),
        segment.spec_bytes().contains(37u8) ==> match percent_decode(segment.spec_bytes()) {
            Some(d) => if vstd::utf8::valid_utf8(d) {
                r matches Ok(s) && s@ == vstd::utf8::decode_utf8(d)
            } else {
                r matches Err(e) && is_facts_failure(e, ErrorReason::UpstreamMalformed)
            },
            None => r matches Err(e) && is_facts_failure(e, ErrorReason::UpstreamMalformed),
        },
{
    let bytes = segment.as_bytes();
    let mut has_escape = false;
    let mut i: usize = 0;
    while i < bytes.len()
        invariant
            i <= bytes@.len(),
            bytes@ == segment.spec_bytes(),
            has_escape == exists|k: int| 0 <= k < i && bytes@[k] == 37u8,
        decreases bytes@.len() - i,
    {
        if bytes[i] == 37 {
            has_escape = true;
        }
        i = i + 1;
    }
    if !has_escape {
        proof {
            assert forall|k: int| 0 <= k < bytes@.len() implies bytes@[k] != 37u8 by {}
            assert(!segment.spec_bytes().contains(37u8));
        }
        return Ok(owned(segment));
    }
    proof {
        let k = choose|k: int| 0 <= k < i && bytes@[k] == 37u8;
        assert(segment.spec_bytes()[k] == 37u8);
    }
    let mut decoded: Vec<u8> = Vec::new();
    let mut index: usize = 0;
    proof {
        assert(bytes@.skip(0) =~= bytes@);
        assert(decoded@ + Seq::<u8>::empty() =~= decoded@);
    }
    while index < bytes.len()
        invariant
            index <= bytes@.len(),
            bytes@ == segment.spec_bytes(),
            percent_decode(bytes@) == match percent_decode(bytes@.skip(index as int)) {
                Some(rest) => Some(decoded@ + rest),
                None => None,
            },
        decreases bytes@.len() - index,
    {
        let ghost tail = bytes@.skip(index as int);
        let ghost before = decoded@;
        if bytes[index] == 37 {
            let high = if bytes.len() - index > 1 {
                hex_nibble(bytes[index + 1])
            } else {
                None
            };
            let low = if bytes.len() - index > 2 {
                hex_nibble(bytes[index + 2])
            } else {
                None
            };
            match (high, low) {
                (Some(h), Some(l)) => {
                    proof {
                        assert(tail[1] == bytes@[index + 1]);
                        assert(tail[2] == bytes@[index + 2]);
                        assert(tail.skip(3) =~= bytes@.skip(index + 3));
                    }
                    let byte: u8 = h * 16 + l;
                    decoded.push(byte);
                    index = index + 3;
                    proof {
                        match percent_decode(bytes@.skip(index as int)) {
                            Some(rest) => assert(before + (seq![byte] + rest) =~= decoded@ + rest),
                            None => {},
                        }
                    }
                },
                _ => {
                    proof {
                        assert(tail[0] == 37u8);
                        if index + 2 < bytes@.len() {
                            assert(tail[1] == bytes@[index + 1]);
                            assert(tail[2] == bytes@[index + 2]);
                        }
                    }
                    return Err(failure(ErrorReason::UpstreamMalformed));
                },
            }
        } else {
            proof {
                assert(tail.drop_first() =~= bytes@.skip(index + 1));
            }
            let byte = bytes[index];
            decoded.push(byte);
            index = index + 1;
            proof {
                match percent_decode(bytes@.skip(index as int)) {
                    Some(rest) => assert(before + (seq![byte] + rest) =~= decoded@ + rest),
                    None => {},
                }
            }
        }
    }
    proof {
        assert(bytes@.skip(index as int) =~= Seq::<u8>::empty());
        assert(decoded@ + Seq::<u8>::empty() =~= decoded@);
    }
    match utf8_string(decoded.as_slice()) {
        Some(s) => Ok(s),
        None => Err(failure(ErrorReason::UpstreamMalformed)),
    }
}

} // verus!
