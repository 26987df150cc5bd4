//! Cumulative budget of one workspace discovery operation, and the glob
//! pattern analysis that decides how much of a pattern can be opened directly.
use vstd::prelude::*;
use crate::error::{ErrorCategory, ResourceError};
use crate::text::{chars_of, push_str, string_of, strip_prefix_chars, strip_prefix_seq};
use vstd::string::StringSliceAdditionalSpecFns;

verus! {

broadcast use vstd::string::group_string_axioms;

pub const MAX_WORKSPACE_DISCOVERY_ENTRIES: usize = 100_000;
pub const MAX_WORKSPACE_DISCOVERY_RECORDS: usize = 100_000;
pub const MAX_WORKSPACE_DISCOVERY_SCAN_BYTES: usize = 268_435_456;
pub const MAX_WORKSPACE_DISCOVERY_STATE_BYTES: usize = 33_554_432;
pub const MAX_WORKSPACE_PCRE2_SUBJECTS: usize = 10_000;
pub const RETAINED_COLLECTION_ENTRY_BYTES: usize = 32;
/// The largest complete Resource a discovery result may become (64 MiB).
pub const MAX_ARTIFACT_BYTES: usize = 67_108_864;

/// Running totals of one discovery operation. Every charge either fits its
/// ceiling or refuses with `limit_exceeded`; a ceiling refusal marks the
/// budget exhausted.
pub struct WorkspaceDiscoveryBudget {
    pub entries: usize,
    pub diagnostics: usize,
    pub exhausted: bool,
    pub records: usize,
    pub result_bytes: usize,
    pub scanned_bytes: usize,
    pub state_bytes: usize,
    pub pcre2_subjects: usize,
}

/// A refusal of category `limit_exceeded` with the sentence `message`.
pub open spec fn is_limit_error(e: ResourceError, message: Seq<char>) -> bool {
    e.category == ErrorCategory::LimitExceeded && e.message@ == message && e.details.is_none()
}

/// `r` is a limit refusal with the sentence `message`.
pub open spec fn limit_refusal<T>(r: Result<T, ResourceError>, message: Seq<char>) -> bool {
    match r {
        Err(e) => is_limit_error(e, message),
        Ok(_) => false,
    }
}

pub fn limit_error(message: &str) -> (e: ResourceError)
    ensures
        is_limit_error(e, message@),
{
    ResourceError::new(ErrorCategory::LimitExceeded, message)
}

impl WorkspaceDiscoveryBudget {
    /// A budget with nothing charged.
    pub fn new() -> (b: Self)
        ensures
            b.entries == 0 && b.diagnostics == 0 && !b.exhausted && b.records == 0
                && b.result_bytes == 0 && b.scanned_bytes == 0 && b.state_bytes == 0 && b.pcre2_subjects == 0,
    {
        WorkspaceDiscoveryBudget {
            entries: 0,
            diagnostics: 0,
            exhausted: false,
            records: 0,
            result_bytes: 0,
            scanned_bytes: 0,
            state_bytes: 0,
            pcre2_subjects: 0,
        }
    }

    /// Counts one traversed entry against the 100,000-entry ceiling.
    pub fn charge_entry(&mut self) -> (r: Result<(), ResourceError>)
        ensures
            old(self).entries + 1 > usize::MAX ==> *final(self) == *old(self) && limit_refusal(r, "Workspace discovery entry count is not representable"@),
            old(self).entries + 1 <= usize::MAX ==> {
                &&& final(self).entries == old(self).entries + 1
                &&& final(self).exhausted == (old(self).exhausted || final(self).entries
                    > MAX_WORKSPACE_DISCOVERY_ENTRIES)
                &&& final(self).diagnostics == old(self).diagnostics
                &&& final(self).pcre2_subjects == old(self).pcre2_subjects
                &&& final(self).records == old(self).records
                &&& final(self).result_bytes == old(self).result_bytes
                &&& final(self).scanned_bytes == old(self).scanned_bytes
                &&& final(self).state_bytes == old(self).state_bytes
                &&& (r is Ok <==> final(self).entries <= MAX_WORKSPACE_DISCOVERY_ENTRIES)
                &&& r is Err ==> limit_refusal(r, "Workspace discovery exceeds the 100,000-entry traversal ceiling"@,
                )
            },
    {
        if self.entries == usize::MAX {
            return Err(limit_error("Workspace discovery entry count is not representable"));
        }
        self.entries = self.entries + 1;
        if self.entries > MAX_WORKSPACE_DISCOVERY_ENTRIES {
            return self.exhaust("Workspace discovery exceeds the 100,000-entry traversal ceiling");
        }
        Ok(())
    }

    /// Counts `bytes` scanned against the 256 MiB cumulative scan ceiling.
    pub fn charge_scan(&mut self, bytes: usize) -> (r: Result<(), ResourceError>)
        ensures
            old(self).scanned_bytes + bytes > usize::MAX ==> *final(self) == *old(self)
                && limit_refusal(r, "Workspace discovery scanned byte count is not representable"@,
            ),
            old(self).scanned_bytes + bytes <= usize::MAX ==> {
                &&& final(self).scanned_bytes == old(self).scanned_bytes + bytes
                &&& final(self).exhausted == (old(self).exhausted || final(self).scanned_bytes
                    > MAX_WORKSPACE_DISCOVERY_SCAN_BYTES)
                &&& final(self).entries == old(self).entries
                &&& final(self).diagnostics == old(self).diagnostics
                &&& final(self).pcre2_subjects == old(self).pcre2_subjects
                &&& final(self).records == old(self).records
                &&& final(self).result_bytes == old(self).result_bytes
                &&& final(self).state_bytes == old(self).state_bytes
                &&& (r is Ok <==> final(self).scanned_bytes <= MAX_WORKSPACE_DISCOVERY_SCAN_BYTES)
                &&& r is Err ==> limit_refusal(r, "Workspace discovery exceeds the 256 MiB cumulative scan ceiling"@,
                )
            },
    {
        if bytes > usize::MAX - self.scanned_bytes {
            return Err(limit_error("Workspace discovery scanned byte count is not representable"));
        }
        self.scanned_bytes = self.scanned_bytes + bytes;
        if self.scanned_bytes > MAX_WORKSPACE_DISCOVERY_SCAN_BYTES {
            return self.exhaust("Workspace discovery exceeds the 256 MiB cumulative scan ceiling");
        }
        Ok(())
    }

    /// Counts `bytes` of retained traversal state against the 32 MiB ceiling.
    pub fn charge_state(&mut self, bytes: usize) -> (r: Result<(), ResourceError>)
        ensures
            old(self).state_bytes + bytes > usize::MAX ==> *final(self) == *old(self)
                && limit_refusal(r, "Workspace discovery state byte count is not representable"@,
            ),
            old(self).state_bytes + bytes <= usize::MAX ==> {
                &&& final(self).state_bytes == old(self).state_bytes + bytes
                &&& final(self).exhausted == (old(self).exhausted || final(self).state_bytes
                    > MAX_WORKSPACE_DISCOVERY_STATE_BYTES)
                &&& final(self).entries == old(self).entries
                &&& final(self).diagnostics == old(self).diagnostics
                &&& final(self).pcre2_subjects == old(self).pcre2_subjects
                &&& final(self).records == old(self).records
                &&& final(self).result_bytes == old(self).result_bytes
                &&& final(self).scanned_bytes == old(self).scanned_bytes
                &&& (r is Ok <==> final(self).state_bytes <= MAX_WORKSPACE_DISCOVERY_STATE_BYTES)
                &&& r is Err ==> limit_refusal(r, "Workspace discovery exceeds the 32 MiB retained traversal-state ceiling"@,
                )
            },
    {
        if bytes > usize::MAX - self.state_bytes {
            return Err(limit_error("Workspace discovery state byte count is not representable"));
        }
        self.state_bytes = self.state_bytes + bytes;
        if self.state_bytes > MAX_WORKSPACE_DISCOVERY_STATE_BYTES {
            return self.exhaust(
                "Workspace discovery exceeds the 32 MiB retained traversal-state ceiling",
            );
        }
        Ok(())
    }

    /// Returns `bytes` of retained state charged earlier.
    pub fn release_state(&mut self, bytes: usize)
        requires
            bytes <= old(self).state_bytes,
        ensures
            final(self).state_bytes == old(self).state_bytes - bytes,
            final(self).entries == old(self).entries,
            final(self).diagnostics == old(self).diagnostics,
            final(self).pcre2_subjects == old(self).pcre2_subjects,
            final(self).exhausted == old(self).exhausted,
            final(self).records == old(self).records,
            final(self).result_bytes == old(self).result_bytes,
            final(self).scanned_bytes == old(self).scanned_bytes,
    {
        self.state_bytes = self.state_bytes - bytes;
    }

    /// Counts one result record of `bytes` against the record and byte ceilings.
    pub fn charge_result(&mut self, bytes: usize, operation: &str) -> (r: Result<
        (),
        ResourceError,
    >)
        ensures
            old(self).records + 1 > usize::MAX ==> *final(self) == *old(self) && limit_refusal(r, operation@ + " result count is not representable"@),
            old(self).records + 1 <= usize::MAX && old(self).records + 1
                > MAX_WORKSPACE_DISCOVERY_RECORDS ==> {
                &&& final(self).records == old(self).records + 1
                &&& final(self).exhausted
                &&& final(self).result_bytes == old(self).result_bytes
                &&& limit_refusal(r, operation@ + " exceeds the 100,000-record result ceiling"@,
                )
            },
            old(self).records + 1 <= MAX_WORKSPACE_DISCOVERY_RECORDS ==> {
                &&& final(self).records == old(self).records + 1
                &&& old(self).result_bytes + bytes > usize::MAX ==> final(self).result_bytes
                    == old(self).result_bytes && final(self).exhausted == old(self).exhausted
                    && limit_refusal(r, operation@ + " result byte count is not representable"@,
                )
                &&& old(self).result_bytes + bytes <= usize::MAX ==> {
                    &&& final(self).result_bytes == old(self).result_bytes + bytes
                    &&& final(self).exhausted == (old(self).exhausted || final(self).result_bytes
                        > MAX_ARTIFACT_BYTES)
                    &&& (r is Ok <==> final(self).result_bytes <= MAX_ARTIFACT_BYTES)
                    &&& r is Err ==> limit_refusal(r, operation@ + " complete result exceeds the 64 MiB Resource ceiling"@,
                    )
                }
            },
            final(self).entries == old(self).entries,
            final(self).diagnostics == old(self).diagnostics,
            final(self).pcre2_subjects == old(self).pcre2_subjects,
            final(self).scanned_bytes == old(self).scanned_bytes,
            final(self).state_bytes == old(self).state_bytes,
    {
        if self.records == usize::MAX {
            return Err(operation_error(operation, " result count is not representable"));
        }
        self.records = self.records + 1;
        if self.records > MAX_WORKSPACE_DISCOVERY_RECORDS {
            let e = operation_error(operation, " exceeds the 100,000-record result ceiling");
            self.exhausted = true;
            return Err(e);
        }
        self.charge_result_bytes(bytes, operation)
    }

    /// Counts `bytes` of result output against the 64 MiB Resource ceiling.
    pub fn charge_result_bytes(&mut self, bytes: usize, operation: &str) -> (r: Result<
        (),
        ResourceError,
    >)
        ensures
            old(self).result_bytes + bytes > usize::MAX ==> *final(self) == *old(self)
                && limit_refusal(r, operation@ + " result byte count is not representable"@,
            ),
            old(self).result_bytes + bytes <= usize::MAX ==> {
                &&& final(self).result_bytes == old(self).result_bytes + bytes
                &&& final(self).exhausted == (old(self).exhausted || final(self).result_bytes
                    > MAX_ARTIFACT_BYTES)
                &&& final(self).entries == old(self).entries
                &&& final(self).diagnostics == old(self).diagnostics
                &&& final(self).pcre2_subjects == old(self).pcre2_subjects
                &&& final(self).records == old(self).records
                &&& final(self).scanned_bytes == old(self).scanned_bytes
                &&& final(self).state_bytes == old(self).state_bytes
                &&& (r is Ok <==> final(self).result_bytes <= MAX_ARTIFACT_BYTES)
                &&& r is Err ==> limit_refusal(r, operation@ + " complete result exceeds the 64 MiB Resource ceiling"@,
                )
            },
    {
        if bytes > usize::MAX - self.result_bytes {
            return Err(operation_error(operation, " result byte count is not representable"));
        }
        self.result_bytes = self.result_bytes + bytes;
        if self.result_bytes > MAX_ARTIFACT_BYTES {
            let e = operation_error(operation, " complete result exceeds the 64 MiB Resource ceiling");
            self.exhausted = true;
            return Err(e);
        }
        Ok(())
    }

    /// Counts one search hit: its reference, line number, escaped text and
    /// three bytes of framing.
    pub fn charge_search_record(&mut self, requested: &str, line: u64, text: &str) -> (r: Result<
        (),
        ResourceError,
    >)
        ensures
            ({
                let additional: int = requested.len() as int + crate::text::decimal(
                    line as nat,
                ).len() as int + text.len() as int + escaped_count(text.spec_bytes()) as int + 3;
                &&& additional > usize::MAX ==> *final(self) == *old(self) && limit_refusal(r, "Workspace search result byte count is not representable"@)
                &&& additional <= usize::MAX ==> {
                    &&& final(self).records == old(self).records + 1 || old(self).records
                        == usize::MAX
                    &&& (r is Ok <==> old(self).records + 1 <= MAX_WORKSPACE_DISCOVERY_RECORDS
                        && old(self).result_bytes + additional <= MAX_ARTIFACT_BYTES)
                }
            }),
    {
        let escaped = escaped_bytes(text);
        let digits = decimal_len(line);
        let total = requested.len() as u128 + digits as u128 + text.len() as u128 + escaped as u128
            + 3;
        if total > usize::MAX as u128 {
            return Err(limit_error("Workspace search result byte count is not representable"));
        }
        self.charge_result(total as usize, "Workspace search")
    }

    /// Counts one glob entry: its reference, a trailing `/` for a directory,
    /// and one byte of framing.
    pub fn charge_glob_entry(&mut self, requested: &str, is_directory: bool) -> (r: Result<
        (),
        ResourceError,
    >)
        ensures
            ({
                let additional: int = requested.len() as int + (if is_directory {
                    1int
                } else {
                    0int
                }) + 1;
                &&& additional > usize::MAX ==> *final(self) == *old(self) && limit_refusal(r, "Workspace glob result byte count is not representable"@)
                &&& additional <= usize::MAX ==> (r is Ok <==> old(self).records + 1
                    <= MAX_WORKSPACE_DISCOVERY_RECORDS && old(self).result_bytes + additional
                    <= MAX_ARTIFACT_BYTES)
            }),
    {
        let suffix: usize = if is_directory {
            1
        } else {
            0
        };
        let len = requested.len();
        if len > usize::MAX - (suffix + 1) {
            return Err(limit_error("Workspace glob result byte count is not representable"));
        }
        self.charge_result(len + suffix + 1, "Workspace glob")
    }

    /// Counts one subject searched with the PCRE2 engine against the
    /// 10,000-subject cumulative ceiling; other engines are not charged.
    pub fn charge_match(&mut self, pcre2: bool) -> (r: Result<(), ResourceError>)
        ensures
            !pcre2 ==> *final(self) == *old(self) && r is Ok,
            pcre2 && old(self).pcre2_subjects + 1 > usize::MAX ==> *final(self) == *old(self)
                && limit_refusal(r, "Workspace PCRE2 subject count is not representable"@),
            pcre2 && old(self).pcre2_subjects + 1 <= usize::MAX ==> {
                &&& final(self).pcre2_subjects == old(self).pcre2_subjects + 1
                &&& final(self).exhausted == (old(self).exhausted || final(self).pcre2_subjects
                    > MAX_WORKSPACE_PCRE2_SUBJECTS)
                &&& final(self).entries == old(self).entries
                &&& final(self).diagnostics == old(self).diagnostics
                &&& final(self).records == old(self).records
                &&& final(self).result_bytes == old(self).result_bytes
                &&& final(self).scanned_bytes == old(self).scanned_bytes
                &&& final(self).state_bytes == old(self).state_bytes
                &&& (r is Ok <==> final(self).pcre2_subjects <= MAX_WORKSPACE_PCRE2_SUBJECTS)
                &&& r is Err ==> limit_refusal(r, "Workspace search exceeds the 10,000-subject cumulative PCRE2 work ceiling"@,
                )
            },
    {
        if !pcre2 {
            return Ok(());
        }
        if self.pcre2_subjects == usize::MAX {
            return Err(limit_error("Workspace PCRE2 subject count is not representable"));
        }
        self.pcre2_subjects = self.pcre2_subjects + 1;
        if self.pcre2_subjects > MAX_WORKSPACE_PCRE2_SUBJECTS {
            return self.exhaust("Workspace search exceeds the 10,000-subject cumulative PCRE2 work ceiling");
        }
        Ok(())
    }

    /// Counts one discovery diagnostic: its reference (one byte when it has
    /// none), category, escaped message and four bytes of framing, against
    /// the diagnostic-count and result-byte ceilings.
    pub fn charge_diagnostic(&mut self, reference_len: Option<usize>, category: &str, message: &str) -> (r:
        Result<(), ResourceError>)
        ensures
            ({
                let additional: int = (match reference_len {
                    Some(n) => n as int,
                    None => 1int,
                }) + category.len() + message.len() + escaped_count(message.spec_bytes()) + 4;
                &&& old(self).diagnostics + 1 > usize::MAX ==> *final(self) == *old(self) && limit_refusal(r, "Workspace discovery diagnostic count is not representable"@)
                &&& old(self).diagnostics + 1 <= usize::MAX ==> final(self).diagnostics == old(self).diagnostics + 1
                &&& old(self).diagnostics + 1 <= usize::MAX && old(self).diagnostics + 1
                    > MAX_WORKSPACE_DISCOVERY_RECORDS ==> final(self).exhausted && final(self).result_bytes
                    == old(self).result_bytes && limit_refusal(r, "Workspace discovery exceeds the 100,000-diagnostic result ceiling"@)
                &&& old(self).diagnostics + 1 <= MAX_WORKSPACE_DISCOVERY_RECORDS && additional > usize::MAX
                    ==> final(self).result_bytes == old(self).result_bytes && final(self).exhausted
                    == old(self).exhausted && limit_refusal(r, "Workspace diagnostic byte count is not representable"@)
                &&& old(self).diagnostics + 1 <= MAX_WORKSPACE_DISCOVERY_RECORDS && additional <= usize::MAX
                    ==> {
                    &&& old(self).result_bytes + additional > usize::MAX ==> final(self).result_bytes
                        == old(self).result_bytes && final(self).exhausted == old(self).exhausted
                        && limit_refusal(r, "Workspace discovery result byte count is not representable"@)
                    &&& old(self).result_bytes + additional <= usize::MAX ==> {
                        &&& final(self).result_bytes == old(self).result_bytes + additional
                        &&& final(self).exhausted == (old(self).exhausted || final(self).result_bytes
                            > MAX_ARTIFACT_BYTES)
                        &&& (r is Ok <==> final(self).result_bytes <= MAX_ARTIFACT_BYTES)
                        &&& r is Err ==> limit_refusal(r, "Workspace discovery complete result exceeds the 64 MiB Resource ceiling"@)
                    }
                }
            }),
            final(self).entries == old(self).entries,
            final(self).records == old(self).records,
            final(self).scanned_bytes == old(self).scanned_bytes,
            final(self).state_bytes == old(self).state_bytes,
            final(self).pcre2_subjects == old(self).pcre2_subjects,
    {
        if self.diagnostics == usize::MAX {
            return Err(limit_error("Workspace discovery diagnostic count is not representable"));
        }
        self.diagnostics = self.diagnostics + 1;
        if self.diagnostics > MAX_WORKSPACE_DISCOVERY_RECORDS {
            return self.exhaust("Workspace discovery exceeds the 100,000-diagnostic result ceiling");
        }
        let escaped = escaped_bytes(message);
        let reference: u128 = match reference_len {
            Some(n) => n as u128,
            None => 1,
        };
        let total = reference + category.len() as u128 + message.len() as u128 + escaped as u128 + 4;
        if total > usize::MAX as u128 {
            return Err(limit_error("Workspace diagnostic byte count is not representable"));
        }
        let r = self.charge_result_bytes(total as usize, "Workspace discovery");
        proof {
            reveal_strlit("Workspace discovery");
            reveal_strlit(" result byte count is not representable");
            reveal_strlit(" complete result exceeds the 64 MiB Resource ceiling");
            reveal_strlit("Workspace discovery result byte count is not representable");
            reveal_strlit("Workspace discovery complete result exceeds the 64 MiB Resource ceiling");
            assert("Workspace discovery"@ + " result byte count is not representable"@
                =~= "Workspace discovery result byte count is not representable"@);
            assert("Workspace discovery"@ + " complete result exceeds the 64 MiB Resource ceiling"@
                =~= "Workspace discovery complete result exceeds the 64 MiB Resource ceiling"@);
        }
        r
    }

    pub fn is_exhausted(&self) -> (b: bool)
        ensures
            b == self.exhausted,
    {
        self.exhausted
    }

    /// Marks the budget exhausted and refuses with `message`.
    pub fn exhaust(&mut self, message: &str) -> (r: Result<(), ResourceError>)
        ensures
            final(self).exhausted,
            final(self).entries == old(self).entries,
            final(self).diagnostics == old(self).diagnostics,
            final(self).pcre2_subjects == old(self).pcre2_subjects,
            final(self).records == old(self).records,
            final(self).result_bytes == old(self).result_bytes,
            final(self).scanned_bytes == old(self).scanned_bytes,
            final(self).state_bytes == old(self).state_bytes,
            limit_refusal(r, message@),
    {
        self.exhausted = true;
        Err(limit_error(message))
    }
}

impl Default for WorkspaceDiscoveryBudget {
    fn default() -> (b: Self)
        ensures
            b.entries == 0 && b.diagnostics == 0 && !b.exhausted && b.records == 0
                && b.result_bytes == 0 && b.scanned_bytes == 0 && b.state_bytes == 0 && b.pcre2_subjects == 0,
    {
        WorkspaceDiscoveryBudget::new()
    }
}

/// A limit refusal whose sentence is `operation` followed by `suffix`.
fn operation_error(operation: &str, suffix: &str) -> (e: ResourceError)
    ensures
        is_limit_error(e, operation@ + suffix@),
{
    let mut message = String::new();
    push_str(&mut message, operation);
    push_str(&mut message, suffix);
    proof {
        assert(message@ =~= operation@ + suffix@);
    }
    ResourceError::from_string(ErrorCategory::LimitExceeded, message)
}

/// Bytes a JSON rendering escapes with one extra byte: `\`, tab, CR and LF.
pub open spec fn is_escaped_byte(b: u8) -> bool {
    b == 0x5c || b == 0x09 || b == 0x0d || b == 0x0a
}

pub open spec fn escaped_count(b: Seq<u8>) -> nat
    decreases b.len(),
{
    if b.len() == 0 {
        0
    } else {
        escaped_count(b.drop_last()) + if is_escaped_byte(b.last()) {
            1nat
        } else {
            0nat
        }
    }
}

/// How many bytes of `text` a search record escapes.
pub fn escaped_bytes(text: &str) -> (n: usize)
    ensures
        n == escaped_count(text.spec_bytes()),
{
    let bytes = text.as_bytes();
    let mut n: usize = 0;
    let mut i: usize = 0;
    while i < bytes.len()
        invariant
            i <= bytes@.len(),
            bytes@ == text.spec_bytes(),
            n == escaped_count(bytes@.take(i as int)),
            n <= i,
        decreases bytes@.len() - i,
    {
        let b = bytes[i];
        proof {
            assert(bytes@.take(i + 1).drop_last() =~= bytes@.take(i as int));
        }
        if b == 0x5c || b == 0x09 || b == 0x0d || b == 0x0a {
            n = n + 1;
        }
        i = i + 1;
    }
    proof {
        assert(bytes@.take(i as int) =~= bytes@);
    }
    n
}

/// The number of decimal digits of `n` (one for zero).
pub fn decimal_len(n: u64) -> (d: usize)
    ensures
        d == crate::text::decimal(n as nat).len(),
    decreases n,
{
    proof {
        crate::text::lemma_decimal_len_u64(n);
    }
    if n < 10 {
        1
    } else {
        decimal_len(n / 10) + 1
    }
}

/// Retained size of one string in traversal state: its bytes, the owning
/// `String` and one collection slot.
pub fn retained_string_state_bytes(value: &str) -> (r: Result<usize, ResourceError>)
    ensures
        ({
            let total: int = value.len() as int + vstd::layout::size_of::<String>() as int
                + RETAINED_COLLECTION_ENTRY_BYTES as int;
            &&& total <= usize::MAX ==> r == Ok::<usize, ResourceError>(total as usize)
            &&& total > usize::MAX ==> limit_refusal(r, "Workspace retained string size is not representable"@,
            )
        }),
{
    let len = value.len();
    let slot = core::mem::size_of::<String>();
    if len > usize::MAX - slot || len + slot > usize::MAX - RETAINED_COLLECTION_ENTRY_BYTES {
        return Err(limit_error("Workspace retained string size is not representable"));
    }
    Ok(len + slot + RETAINED_COLLECTION_ENTRY_BYTES)
}

/// Retained size of one path in traversal state: its `path_bytes` encoded
/// bytes, the owning path of `slot` bytes (the size of a `PathBuf`), the
/// `value_bytes` kept beside it and one collection slot.
pub fn retained_path_state_bytes(path_bytes: usize, slot: usize, value_bytes: usize) -> (r: Result<
    usize,
    ResourceError,
>)
    ensures
        ({
            let total: int = path_bytes as int + slot as int + value_bytes as int
                + RETAINED_COLLECTION_ENTRY_BYTES as int;
            &&& total <= usize::MAX ==> r == Ok::<usize, ResourceError>(total as usize)
            &&& total > usize::MAX ==> limit_refusal(r, "Workspace retained path size is not representable"@)
        }),
{
    if path_bytes > usize::MAX - slot {
        return Err(limit_error("Workspace retained path size is not representable"));
    }
    let with_slot = path_bytes + slot;
    if value_bytes > usize::MAX - with_slot {
        return Err(limit_error("Workspace retained path size is not representable"));
    }
    let with_value = with_slot + value_bytes;
    if with_value > usize::MAX - RETAINED_COLLECTION_ENTRY_BYTES {
        return Err(limit_error("Workspace retained path size is not representable"));
    }
    Ok(with_value + RETAINED_COLLECTION_ENTRY_BYTES)
}

pub open spec fn sum_lens(lens: Seq<usize>) -> int
    decreases lens.len(),
{
    if lens.len() == 0 {
        0
    } else {
        sum_lens(lens.drop_last()) + lens.last()
    }
}

proof fn lemma_sum_lens_nonneg(lens: Seq<usize>)
    ensures
        sum_lens(lens) >= 0,
    decreases lens.len(),
{
    if lens.len() > 0 {
        lemma_sum_lens_nonneg(lens.drop_last());
    }
}

proof fn lemma_sum_lens_grows(lens: Seq<usize>, i: int)
    requires
        0 <= i <= lens.len(),
    ensures
        sum_lens(lens.take(i)) <= sum_lens(lens),
    decreases lens.len(),
{
    if i < lens.len() {
        assert(lens.drop_last().take(i) =~= lens.take(i));
        lemma_sum_lens_grows(lens.drop_last(), i);
    } else {
        assert(lens.take(i) =~= lens);
    }
}

/// Retained size of a directory's names in traversal state: `capacity`
/// owning name slots of `slot` bytes each (the size of an `OsString`) and
/// the encoded bytes of each name.
pub fn retained_names_state_bytes(name_bytes: &[usize], capacity: usize, slot: usize) -> (r: Result<
    usize,
    ResourceError,
>)
    ensures
        ({
            let total: int = capacity as int * slot as int + sum_lens(name_bytes@);
            &&& total <= usize::MAX ==> r == Ok::<usize, ResourceError>(total as usize)
            &&& total > usize::MAX ==> limit_refusal(r, "Workspace directory name state size is not representable"@)
        }),
{
    let mut total: usize = match capacity.checked_mul(slot) {
        Some(t) => t,
        None => {
            proof {
                lemma_sum_lens_nonneg(name_bytes@);
            }
            return Err(limit_error("Workspace directory name state size is not representable"));
        },
    };
    let ghost base: int = capacity as int * slot as int;
    let mut i: usize = 0;
    while i < name_bytes.len()
        invariant
            i <= name_bytes@.len(),
            total as int == base + sum_lens(name_bytes@.take(i as int)),
            base == capacity as int * slot as int,
            base >= 0,
        decreases name_bytes@.len() - i,
    {
        proof {
            assert(name_bytes@.take(i + 1).drop_last() =~= name_bytes@.take(i as int));
        }
        if name_bytes[i] > usize::MAX - total {
            proof {
                lemma_sum_lens_grows(name_bytes@, i + 1);
                assert(sum_lens(name_bytes@.take(i + 1)) == sum_lens(name_bytes@.take(i as int)) + name_bytes@[i as int]);
            }
            return Err(limit_error("Workspace directory name state size is not representable"));
        }
        total = total + name_bytes[i];
        i = i + 1;
    }
    proof {
        assert(name_bytes@.take(name_bytes@.len() as int) =~= name_bytes@);
    }
    Ok(total)
}

// ------------------------------------------------------------ identities

/// The canonical prefix of every resource under Workspace Root `root_id`.
pub open spec fn root_identity(root_id: Seq<char>) -> Seq<char> {
    "rfs://workspace/"@ + root_id + "/"@
}

pub fn workspace_root_identity(root_id: &str) -> (s: String)
    ensures
        s@ == root_identity(root_id@),
{
    let mut s = String::new();
    push_str(&mut s, "rfs://workspace/");
    push_str(&mut s, root_id);
    push_str(&mut s, "/");
    proof {
        assert(s@ =~= root_identity(root_id@));
    }
    s
}

/// The path a discovered reference names below its root's identity.
pub fn workspace_match_path(requested: &str, root_id: &str) -> (r: Result<String, ResourceError>)
    ensures
        match strip_prefix_seq(requested@, root_identity(root_id@)) {
            Some(rest) => r matches Ok(p) && p@ == rest,
            None => r matches Err(e) && e.category == ErrorCategory::InvalidReference && e.message@
                == "Workspace discovery produced an identity under the wrong root"@ && e.details is None,
        },
{
    let prefix = workspace_root_identity(root_id);
    let requested_chars = chars_of(requested);
    let prefix_chars = chars_of(prefix.as_str());
    match strip_prefix_chars(&requested_chars, &prefix_chars) {
        Some(rest) => Ok(string_of(&rest)),
        None => Err(
            ResourceError::new(
                ErrorCategory::InvalidReference,
                "Workspace discovery produced an identity under the wrong root",
            ),
        ),
    }
}

/// The refusal of a glob that is neither relative nor a canonical
/// Workspace glob.
pub fn workspace_glob_required() -> (e: ResourceError)
    ensures
        e.category == ErrorCategory::UnsupportedProjection,
        e.message@ == "filesystem Source Adapter requires a relative or canonical Workspace glob"@,
        e.details is None,
{
    ResourceError::new(
        ErrorCategory::UnsupportedProjection,
        "filesystem Source Adapter requires a relative or canonical Workspace glob",
    )
}

// ------------------------------------------------------------ glob patterns

/// Glob metacharacters that force a directory walk.
pub open spec fn is_glob_meta(c: char) -> bool {
    c == '\\' || c == '*' || c == '?' || c == '[' || c == '{'
}

/// Whether the component `c`, scanned from `i`, holds a glob metacharacter
/// outside a `%XX` escape of two ASCII characters followed by more input.
pub open spec fn requires_walk_from(c: Seq<char>, i: int) -> bool
    decreases c.len() - i,
{
    if i < 0 || i >= c.len() {
        false
    } else if c[i] == '%' && i + 2 < c.len() && crate::text::is_ascii_char(c[i + 1])
        && crate::text::is_ascii_char(c[i + 2]) {
        requires_walk_from(c, i + 3)
    } else if is_glob_meta(c[i]) {
        true
    } else {
        requires_walk_from(c, i + 1)
    }
}

/// Whether a pattern component needs a directory walk rather than a direct open.
pub fn component_requires_glob_walk(component: &[char]) -> (b: bool)
    ensures
        b == requires_walk_from(component@, 0),
{
    let mut i: usize = 0;
    while i < component.len()
        invariant
            i <= component@.len() + 2,
            requires_walk_from(component@, 0) == requires_walk_from(component@, i as int),
        decreases component@.len() + 3 - i,
    {
        let c = component[i];
        if c == '%' && component.len() - i > 2 && (component[i + 1] as u32) < 128
            && (component[i + 2] as u32) < 128 {
            i = i + 3;
            continue;
        }
        if c == '\\' || c == '*' || c == '?' || c == '[' || c == '{' {
            return true;
        }
        i = i + 1;
    }
    false
}

/// Index of the next `/` at or after `i`, or the length.
pub open spec fn next_slash(p: Seq<char>, i: int) -> int
    decreases p.len() - i,
{
    if i >= p.len() {
        p.len() as int
    } else if p[i] == '/' {
        i
    } else {
        next_slash(p, i + 1)
    }
}

/// Start of the first `/`-separated component, at or after the component
/// starting at `i`, that needs a walk.
pub open spec fn first_walk_component(p: Seq<char>, i: int) -> Option<int>
    decreases p.len() + 1 - i,
{
    if i < 0 || i > p.len() {
        None
    } else {
        let end = next_slash(p, i);
        if requires_walk_from(p.subrange(i, end), 0) {
            Some(i)
        } else if end >= p.len() {
            None
        } else {
            proof {
                lemma_next_slash_bounds(p, i);
            }
            first_walk_component(p, end + 1)
        }
    }
}

/// `s` without trailing `/` characters.
pub open spec fn trim_end_slashes(s: Seq<char>) -> Seq<char>
    decreases s.len(),
{
    if s.len() > 0 && s.last() == '/' {
        trim_end_slashes(s.drop_last())
    } else {
        s
    }
}

/// The literal directory prefix of a glob pattern: every component before
/// the first that needs a walk, without trailing `/`; the whole pattern when
/// no component does.
pub open spec fn fixed_prefix_spec(p: Seq<char>) -> Seq<char> {
    match first_walk_component(p, 0) {
        None => p,
        Some(start) => trim_end_slashes(p.take(start)),
    }
}

pub proof fn lemma_next_slash_bounds(p: Seq<char>, i: int)
    requires
        0 <= i <= p.len(),
    ensures
        i <= next_slash(p, i) <= p.len(),
        next_slash(p, i) < p.len() ==> p[next_slash(p, i)] == '/',
        forall|k: int| i <= k < next_slash(p, i) ==> p[k] != '/',
    decreases p.len() - i,
{
    if i < p.len() && p[i] != '/' {
        lemma_next_slash_bounds(p, i + 1);
    }
}

/// The literal prefix of `pattern` that can be opened without a walk.
pub fn fixed_glob_prefix(pattern: &[char]) -> (r: Vec<char>)
    ensures
        r@ == fixed_prefix_spec(pattern@),
{
    let mut start: usize = 0;
    loop
        invariant
            start <= pattern@.len(),
            first_walk_component(pattern@, 0) == first_walk_component(pattern@, start as int),
        decreases pattern@.len() + 1 - start,
    {
        let mut end: usize = start;
        while end < pattern.len() && pattern[end] != '/'
            invariant
                start <= end <= pattern@.len(),
                next_slash(pattern@, start as int) == next_slash(pattern@, end as int),
            decreases pattern@.len() - end,
        {
            end = end + 1;
        }
        proof {
            lemma_next_slash_bounds(pattern@, start as int);
        }
        let mut component: Vec<char> = Vec::new();
        let mut k: usize = start;
        while k < end
            invariant
                start <= k <= end <= pattern@.len(),
                component@ =~= pattern@.subrange(start as int, k as int),
            decreases end - k,
        {
            component.push(pattern[k]);
            k = k + 1;
        }
        if component_requires_glob_walk(&component) {
            let mut n: usize = start;
            while n > 0 && pattern[n - 1] == '/'
                invariant
                    n <= start <= pattern@.len(),
                    trim_end_slashes(pattern@.take(start as int)) == trim_end_slashes(
                        pattern@.take(n as int),
                    ),
                decreases n,
            {
                proof {
                    assert(pattern@.take(n as int).drop_last() =~= pattern@.take(n - 1));
                }
                n = n - 1;
            }
            let mut r: Vec<char> = Vec::new();
            let mut j: usize = 0;
            while j < n
                invariant
                    j <= n <= pattern@.len(),
                    r@ =~= pattern@.take(j as int),
                decreases n - j,
            {
                r.push(pattern[j]);
                j = j + 1;
            }
            proof {
                if n > 0 {
                    assert(pattern@.take(n as int).last() != '/');
                }
            }
            return r;
        }
        if end >= pattern.len() {
            let mut r: Vec<char> = Vec::new();
            let mut j: usize = 0;
            while j < pattern.len()
                invariant
                    j <= pattern@.len(),
                    r@ =~= pattern@.take(j as int),
                decreases pattern@.len() - j,
            {
                r.push(pattern[j]);
                j = j + 1;
            }
            proof {
                assert(pattern@.take(j as int) =~= pattern@);
            }
            return r;
        }
        start = end + 1;
    }
}

} // verus!
