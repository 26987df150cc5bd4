//! Git objects a facts read fetches by id: a blob's content is checked
//! against its id, size and encoding before it is kept.
use vstd::prelude::*;
use std::io::Write as _;
use base64::Engine as _;
use crate::error::{ErrorReason, ResourceError};
use crate::facts::{failure, hex_value, is_facts_failure, Presence};
use crate::github::{GithubRepositoryIdentity, ParsedUrl};
use crate::identity::{
    expected_object_url, fails_with, is_sha, joined, object_path, present_text, required, sha,
    spec_matches_object_url, validate_optional_object_link,
};
use crate::text::{chars_of, string_of};
use vstd::string::StringSliceAdditionalSpecFns;

verus! {

broadcast use vstd::string::group_string_axioms;

// ------------------------------------------------------------ outside calls

/// What `gix_hash::ObjectId::from_hex` makes of `hex` under SHA-1: forty
/// hexadecimal digits of either case give their twenty bytes; anything
/// else is refused.
pub open spec fn object_id_spec(hex: Seq<u8>) -> Option<Seq<u8>> {
    if hex.len() == 40 && forall|i: int| 0 <= i < 40 ==> #[trigger] hex_value(hex[i]) is Some {
        Some(Seq::new(20, |i: int| (hex_value(hex[2 * i])->0 * 16 + hex_value(hex[2 * i + 1])->0) as u8))
    } else {
        None
    }
}

/// Decodes an object id with `gix_hash::ObjectId::from_hex` and gives its
/// bytes. The contract restates the documented decoding of a SHA-1 id.
#[verifier::external_body]
pub(crate) fn object_id_bytes(hex: &str) -> (r: Option<Vec<u8>>)
    ensures
        match r {
            Some(b) => object_id_spec(hex.spec_bytes()) == Some(b@),
            None => object_id_spec(hex.spec_bytes()) is None,
        },
{
    gix_hash::ObjectId::from_hex(hex.as_bytes()).ok().map(|id| id.as_bytes().to_vec())
}

/// The bytes the standard padded base64 engine decodes `encoded` to, `None`
/// when it refuses the text.
pub uninterp spec fn base64_decoded(encoded: Seq<u8>) -> Option<Seq<u8>>;

/// Decodes with `base64::engine::general_purpose::STANDARD.decode`; the
/// contract only names the result.
#[verifier::external_body]
pub(crate) fn decode_base64(encoded: &[u8]) -> (r: Option<Vec<u8>>)
    ensures
        match r {
            Some(b) => base64_decoded(encoded@) == Some(b@),
            None => base64_decoded(encoded@) is None,
        },
{
    base64::engine::general_purpose::STANDARD.decode(encoded).ok()
}

/// The SHA-1 Git object id of a tree (`tree` true) or blob with content
/// `body`: the hash of its loose header and content; `None` when the
/// hasher refuses to finalize.
pub uninterp spec fn git_object_hash(tree: bool, body: Seq<u8>) -> Option<Seq<u8>>;

/// Hashes `gix_object::encode::loose_header` and `body` with
/// `gix_hash::io::Write` (SHA-1) and finalizes with `try_finalize`. The
/// contract only names the result.
#[verifier::external_body]
pub(crate) fn git_object_id(tree: bool, body: &[u8]) -> (r: Option<Vec<u8>>)
    ensures
        match r {
            Some(b) => git_object_hash(tree, body@) == Some(b@),
            None => git_object_hash(tree, body@) is None,
        },
{
    let kind = match tree {
        true => gix_object::Kind::Tree,
        false => gix_object::Kind::Blob,
    };
    let mut writer = gix_hash::io::Write::new(std::io::sink(), gix_hash::Kind::Sha1);
    writer.write_all(&gix_object::encode::loose_header(kind, body.len() as u64)).ok()?;
    writer.write_all(body).ok()?;
    writer.hash.try_finalize().ok().map(|id| id.as_bytes().to_vec())
}

fn same_bytes(a: &[u8], b: &[u8]) -> (r: bool)
    ensures
        r == (a@ == b@),
{
    if a.len() != b.len() {
        return false;
    }
    let mut i: usize = 0;
    while i < a.len()
        invariant
            a@.len() == b@.len(),
            i <= a@.len(),
            forall|k: int| 0 <= k < i ==> a@[k] == b@[k],
        decreases a@.len() - i,
    {
        if a[i] != b[i] {
            return false;
        }
        i = i + 1;
    }
    proof {
        assert(a@ =~= b@);
    }
    true
}

// ------------------------------------------------------------ base64 shape

/// The number of trailing `=` bytes.
pub open spec fn trailing_pads(b: Seq<u8>) -> nat
    decreases b.len(),
{
    if b.len() > 0 && b.last() == 61 {
        trailing_pads(b.drop_last()) + 1
    } else {
        0
    }
}

/// The exact decoded size of padded base64 text, read from its shape: a
/// whole number of quanta, at most two trailing pads and none before them,
/// and a final quantum the engine accepts.
pub open spec fn decoded_size_spec(b: Seq<u8>) -> Option<nat> {
    let p = trailing_pads(b);
    if b.len() % 4 != 0 || p > 2 || b.take(b.len() - p).contains(61u8) {
        None
    } else if b.len() > 0 && base64_decoded(b.skip(b.len() - 4)) is None {
        None
    } else {
        Some((b.len() / 4 * 3 - p) as nat)
    }
}

proof fn lemma_pads_bounded(b: Seq<u8>)
    ensures
        trailing_pads(b) <= b.len(),
        forall|i: int| b.len() - trailing_pads(b) <= i < b.len() ==> b[i] == 61,
        trailing_pads(b) < b.len() ==> b[b.len() - trailing_pads(b) - 1] != 61,
    decreases b.len(),
{
    if b.len() > 0 && b.last() == 61 {
        lemma_pads_bounded(b.drop_last());
        assert forall|i: int| b.len() - trailing_pads(b) <= i < b.len() implies b[i] == 61 by {
            if i < b.len() - 1 {
                assert(b.drop_last()[i] == b[i]);
            }
        }
    }
}

/// The size padded base64 text decodes to, checked before anything is
/// decoded.
pub fn exact_decoded_size(encoded: &[u8]) -> (r: Result<usize, ResourceError>)
    ensures
        match decoded_size_spec(encoded@) {
            Some(n) => n <= encoded@.len() && r == Ok::<usize, ResourceError>(n as usize),
            None => r matches Err(e) && is_facts_failure(e, ErrorReason::UpstreamMalformed),
        },
{
    let n = encoded.len();
    if n % 4 != 0 {
        return Err(failure(ErrorReason::UpstreamMalformed));
    }
    let mut padding: usize = 0;
    proof {
        lemma_pads_bounded(encoded@);
    }
    while padding < n && encoded[n - 1 - padding] == 61
        invariant
            n == encoded@.len(),
            padding <= trailing_pads(encoded@),
        decreases n - padding,
    {
        proof {
            lemma_pads_bounded(encoded@);
            if padding == trailing_pads(encoded@) {
                assert(encoded@[n - padding - 1] != 61);
            }
        }
        padding = padding + 1;
    }
    proof {
        lemma_pads_bounded(encoded@);
    }
    if padding > 2 {
        return Err(failure(ErrorReason::UpstreamMalformed));
    }
    let body = n - padding;
    let mut i: usize = 0;
    while i < body
        invariant
            body <= n == encoded@.len(),
            body == encoded@.len() - trailing_pads(encoded@),
            forall|k: int| 0 <= k < i ==> encoded@[k] != 61,
        decreases body - i,
    {
        if encoded[i] == 61 {
            proof {
                assert(encoded@.take(body as int)[i as int] == 61);
            }
            return Err(failure(ErrorReason::UpstreamMalformed));
        }
        i = i + 1;
    }
    proof {
        assert forall|k: int| 0 <= k < encoded@.take(body as int).len() implies encoded@.take(body as int)[k] != 61u8 by {
        }
    }
    if n > 0 {
        let mut last: Vec<u8> = Vec::new();
        let mut k: usize = n - 4;
        while k < n
            invariant
                4 <= n == encoded@.len(),
                n - 4 <= k <= n,
                last@ == encoded@.subrange(n - 4, k as int),
            decreases n - k,
        {
            last.push(encoded[k]);
            proof {
                assert(encoded@.subrange(n - 4, k + 1) =~= encoded@.subrange(n - 4, k as int).push(encoded@[k as int]));
            }
            k = k + 1;
        }
        proof {
            assert(last@ =~= encoded@.skip(n - 4));
        }
        if decode_base64(last.as_slice()).is_none() {
            return Err(failure(ErrorReason::UpstreamMalformed));
        }
    }
    Ok(n / 4 * 3 - padding)
}

// ------------------------------------------------------------ blobs

/// A Git blob as the provider serves it.
#[derive(Debug)]
pub struct NativeBlob {
    pub sha: Presence<String>,
    pub url: Presence<String>,
    pub size: Presence<u64>,
    pub content: Presence<String>,
    pub encoding: Presence<String>,
}

/// A blob's verified content, or only its size when it is over the cap.
#[derive(Debug)]
pub enum BlobResult {
    Available { bytes_base64: String, decoded_size: usize },
    Oversized { decoded_size: usize },
}

pub open spec fn is_base64_char(c: char) -> bool {
    ('A' <= c <= 'Z') || ('a' <= c <= 'z') || ('0' <= c <= '9') || c == '+' || c == '/' || c == '='
}

/// Base64 text without its line breaks; `None` when it holds any other
/// character outside the alphabet.
pub open spec fn compact(s: Seq<char>) -> Option<Seq<char>>
    decreases s.len(),
{
    if s.len() == 0 {
        Some(Seq::empty())
    } else {
        match compact(s.drop_last()) {
            None => None,
            Some(t) => if s.last() == '\r' || s.last() == '\n' {
                Some(t)
            } else if is_base64_char(s.last()) {
                Some(t.push(s.last()))
            } else {
                None
            },
        }
    }
}

/// The bytes of ASCII text.
pub open spec fn ascii_bytes(s: Seq<char>) -> Seq<u8> {
    Seq::new(s.len(), |i: int| s[i] as u8)
}

fn compact_content(content: &str) -> (r: Option<(String, Vec<u8>)>)
    ensures
        match r {
            Some((t, b)) => compact(content@) == Some(t@) && b@ == ascii_bytes(t@),
            None => compact(content@) is None,
        },
{
    let chars = chars_of(content);
    let mut kept: Vec<char> = Vec::new();
    let mut bytes: Vec<u8> = Vec::new();
    let mut i: usize = 0;
    proof {
        assert(chars@.take(0) =~= Seq::<char>::empty());
        assert(kept@ =~= Seq::<char>::empty());
    }
    while i < chars.len()
        invariant
            i <= chars@.len(),
            chars@ == content@,
            compact(chars@.take(i as int)) == Some(kept@),
            bytes@ == ascii_bytes(kept@),
            forall|k: int| 0 <= k < kept@.len() ==> is_base64_char(#[trigger] kept@[k]),
        decreases chars@.len() - i,
    {
        let c = chars[i];
        proof {
            assert(chars@.take(i + 1).drop_last() =~= chars@.take(i as int));
            assert(chars@.take(i + 1).last() == c);
        }
        if c == '\r' || c == '\n' {
        } else if ('A' <= c && c <= 'Z') || ('a' <= c && c <= 'z') || ('0' <= c && c <= '9') || c == '+' || c
            == '/' || c == '=' {
            let ghost before = kept@;
            kept.push(c);
            bytes.push(c as u8);
            proof {
                assert(bytes@ =~= ascii_bytes(kept@));
            }
        } else {
            proof {
                let mut j: int = i + 1;
                assert(compact(chars@.take(i + 1)) is None);
                assert forall|m: int| i + 1 <= m <= chars@.len() implies compact(#[trigger] chars@.take(m)) is None by {
                    lemma_compact_stays_none(chars@, i + 1, m);
                }
                assert(chars@.take(chars@.len() as int) =~= chars@);
            }
            return None;
        }
        i = i + 1;
    }
    proof {
        assert(chars@.take(chars@.len() as int) =~= chars@);
    }
    Some((string_of(kept.as_slice()), bytes))
}

proof fn lemma_compact_stays_none(s: Seq<char>, from: int, to: int)
    requires
        0 <= from <= to <= s.len(),
        compact(s.take(from)) is None,
    ensures
        compact(s.take(to)) is None,
    decreases to - from,
{
    if from < to {
        assert(s.take(from + 1).drop_last() =~= s.take(from));
        lemma_compact_stays_none(s, from + 1, to);
    }
}

/// How a blob read as `requested` ends: its id must be `requested`; its
/// encoding base64 and its content base64 text once line breaks are
/// dropped; its decoded size must agree with the expected and declared
/// sizes; over the cap only its size is kept; otherwise its content must
/// decode and hash to its id.
pub open spec fn blob_outcome(
    native: NativeBlob,
    requested: Seq<char>,
    expected_size: Option<u64>,
    decoded_cap: usize,
) -> Result<(Option<Seq<char>>, nat), ErrorReason> {
    match native.sha {
        Presence::Present(s) => if !is_sha(s@) {
            Err(ErrorReason::UpstreamMalformed)
        } else if s@ != requested {
            Err(ErrorReason::UpstreamIdentityMismatch)
        } else {
            match object_id_spec(vstd::utf8::encode_utf8(s@)) {
                None => Err(ErrorReason::UpstreamMalformed),
                Some(id) => match (native.encoding, native.content) {
                    (Presence::Present(enc), Presence::Present(content)) => if enc@ != "base64"@ {
                        Err(ErrorReason::UpstreamMalformed)
                    } else {
                        match compact(content@) {
                            None => Err(ErrorReason::UpstreamMalformed),
                            Some(t) => match decoded_size_spec(ascii_bytes(t)) {
                                None => Err(ErrorReason::UpstreamMalformed),
                                Some(n) => if (expected_size matches Some(x) && x != n) || (
                                native.size matches Presence::Present(x) && x != n) {
                                    Err(ErrorReason::UpstreamIdentityMismatch)
                                } else if n > decoded_cap {
                                    Ok((None, n))
                                } else {
                                    match base64_decoded(ascii_bytes(t)) {
                                        None => Err(ErrorReason::UpstreamMalformed),
                                        Some(bytes) => if git_object_hash(false, bytes) == Some(id) {
                                            Ok((Some(t), n))
                                        } else {
                                            Err(ErrorReason::UpstreamIdentityMismatch)
                                        },
                                    }
                                },
                            },
                        }
                    },
                    (Presence::Present(enc), _) => if enc@ != "base64"@ {
                        Err(ErrorReason::UpstreamMalformed)
                    } else {
                        Err(ErrorReason::UpstreamMalformed)
                    },
                    _ => Err(ErrorReason::UpstreamMalformed),
                },
            }
        },
        _ => Err(ErrorReason::UpstreamMalformed),
    }
}

pub open spec fn blob_view(b: BlobResult) -> (Option<Seq<char>>, nat) {
    match b {
        BlobResult::Available { bytes_base64, decoded_size } => (Some(bytes_base64@), decoded_size as nat),
        BlobResult::Oversized { decoded_size } => (None, decoded_size as nat),
    }
}

/// Validates a blob read as `requested`; keeps its compact base64 content
/// when its decoded size is within `decoded_cap`.
pub fn validate_blob(native: NativeBlob, requested: &str, expected_size: Option<u64>, decoded_cap: usize) -> (r:
    Result<BlobResult, ResourceError>)
    ensures
        match blob_outcome(native, requested@, expected_size, decoded_cap) {
            Ok(v) => r matches Ok(b) && blob_view(b) == v,
            Err(reason) => r matches Err(e) && is_facts_failure(e, reason),
        },
{
    let observed = sha(&native.sha)?;
    let o = chars_of(observed);
    let q = chars_of(requested);
    if !crate::github::same_chars(o.as_slice(), q.as_slice()) {
        return Err(failure(ErrorReason::UpstreamIdentityMismatch));
    }
    let id = match object_id_bytes(observed) {
        Some(id) => id,
        None => {
            return Err(failure(ErrorReason::UpstreamMalformed));
        },
    };
    let encoding = required(&native.encoding)?;
    let enc = chars_of(encoding.as_str());
    if !crate::text::chars_eq_str(enc.as_slice(), "base64") {
        return Err(failure(ErrorReason::UpstreamMalformed));
    }
    let content = match &native.content {
        Presence::Present(c) => c,
        _ => {
            return Err(failure(ErrorReason::UpstreamMalformed));
        },
    };
    let (text, bytes) = match compact_content(content.as_str()) {
        Some(p) => p,
        None => {
            return Err(failure(ErrorReason::UpstreamMalformed));
        },
    };
    let decoded_size = exact_decoded_size(bytes.as_slice())?;
    proof {
        let sha_text = native.sha->Present_0;
        assert(sha_text@ == observed@);
        assert(is_sha(sha_text@));
        assert(object_id_spec(vstd::utf8::encode_utf8(sha_text@)) == Some(id@));
        assert(native.encoding == Presence::Present(*encoding));
        assert(native.content == Presence::Present(*content));
        assert(compact(content@) == Some(text@));
        assert(bytes@ == ascii_bytes(text@));
        assert(decoded_size_spec(bytes@) is Some);
        assert(decoded_size_spec(bytes@)->0 <= bytes@.len());
        assert(bytes@.len() == bytes.len());
        assert(decoded_size == (decoded_size_spec(bytes@)->0) as usize);
        assert(decoded_size_spec(ascii_bytes(text@)) == Some(decoded_size as nat));
    }
    let declared_mismatch = match native.size {
        Presence::Present(x) => x != decoded_size as u64,
        _ => false,
    };
    let expected_mismatch = match expected_size {
        Some(x) => x != decoded_size as u64,
        None => false,
    };
    if expected_mismatch || declared_mismatch {
        return Err(failure(ErrorReason::UpstreamIdentityMismatch));
    }
    if decoded_size > decoded_cap {
        return Ok(BlobResult::Oversized { decoded_size });
    }
    let decoded = match decode_base64(bytes.as_slice()) {
        Some(d) => d,
        None => {
            return Err(failure(ErrorReason::UpstreamMalformed));
        },
    };
    let actual = match git_object_id(false, decoded.as_slice()) {
        Some(a) => a,
        None => {
            return Err(failure(ErrorReason::UpstreamIdentityMismatch));
        },
    };
    if !same_bytes(actual.as_slice(), id.as_slice()) {
        return Err(failure(ErrorReason::UpstreamIdentityMismatch));
    }
    Ok(BlobResult::Available { bytes_base64: text, decoded_size })
}

// ------------------------------------------------------------ tree modes

/// What a tree entry names.
#[derive(Debug, Clone, Copy, PartialEq, Eq, Structural)]
pub enum EntryDisposition {
    Tree,
    Blob,
    Link,
    Commit,
    UnsupportedMode,
}

pub open spec fn is_octal(c: char) -> bool {
    '0' <= c <= '7'
}

/// The value of octal digits.
pub open spec fn octal_value(s: Seq<char>) -> nat
    decreases s.len(),
{
    if s.len() == 0 {
        0
    } else {
        (octal_value(s.drop_last()) * 8 + (s.last() as int - '0' as int)) as nat
    }
}

/// The modes `gix_object::tree::EntryMode::try_from` accepts: a tree,
/// link or submodule mode, or any mode with the regular-file bit
/// (`0o100000`) set.
pub open spec fn accepted_mode(m: nat) -> bool {
    m == 0o40000 || m == 0o120000 || m == 0o160000 || (m / 0o100000) % 2 == 1
}

/// The object type a mode's format bits (`0o170000`) call for.
pub open spec fn mode_type(m: nat) -> Option<Seq<char>> {
    let f = m / 0o10000;
    if f == 4 {
        Some("tree"@)
    } else if f == 8 || f == 10 {
        Some("blob"@)
    } else if f == 14 {
        Some("commit"@)
    } else {
        None
    }
}

/// A tree entry's mode read as octal, and what it names: `None` when it is
/// not one to six octal digits naming a 16-bit mode Git accepts whose type
/// is the entry's declared type.
pub open spec fn mode_spec(raw: Seq<char>, object_type: Seq<char>) -> Option<(u16, EntryDisposition)> {
    let n = octal_value(raw);
    if raw.len() == 0 || raw.len() > 6 || !(forall|i: int| 0 <= i < raw.len() ==> is_octal(#[trigger] raw[i])) {
        None
    } else if n > 0xffff || !(mode_type(n) matches Some(t) && t == object_type) {
        None
    } else if n == 0o40000 {
        Some((n as u16, EntryDisposition::Tree))
    } else if n == 0o100644 || n == 0o100755 {
        Some((n as u16, EntryDisposition::Blob))
    } else if n == 0o120000 {
        Some((n as u16, EntryDisposition::Link))
    } else if n == 0o160000 {
        Some((n as u16, EntryDisposition::Commit))
    } else if accepted_mode(n) {
        Some((n as u16, EntryDisposition::UnsupportedMode))
    } else {
        None
    }
}

pub open spec fn pow8(k: nat) -> nat
    decreases k,
{
    if k == 0 {
        1
    } else {
        8 * pow8((k - 1) as nat)
    }
}

/// Reads a tree entry's mode and checks it against the entry's type.
pub fn parse_mode(raw: &str, object_type: &str) -> (r: Result<(u16, EntryDisposition), ResourceError>)
    ensures
        match mode_spec(raw@, object_type@) {
            Some(v) => r == Ok::<(u16, EntryDisposition), ResourceError>(v),
            None => r matches Err(e) && is_facts_failure(e, ErrorReason::UpstreamMalformed),
        },
{
    let digits = chars_of(raw);
    if digits.len() == 0 || digits.len() > 6 {
        return Err(failure(ErrorReason::UpstreamMalformed));
    }
    let mut value: u32 = 0;
    let mut i: usize = 0;
    while i < digits.len()
        invariant
            i <= digits@.len() <= 6,
            digits@ == raw@,
            forall|k: int| 0 <= k < i ==> is_octal(#[trigger] digits@[k]),
            value == octal_value(digits@.take(i as int)),
            value < pow8(i as nat),
        decreases digits@.len() - i,
    {
        let c = digits[i];
        if !('0' <= c && c <= '7') {
            return Err(failure(ErrorReason::UpstreamMalformed));
        }
        proof {
            assert(digits@.take(i + 1).drop_last() =~= digits@.take(i as int));
            assert(pow8((i + 1) as nat) == 8 * pow8(i as nat));
            assert(pow8(i as nat) <= pow8(5)) by {
                lemma_pow8_monotone(i as nat, 5);
            }
            assert(pow8(5) == 32768) by {
                reveal_with_fuel(pow8, 6);
            }
        }
        value = value * 8 + (c as u32 - 48);
        i = i + 1;
    }
    proof {
        assert(digits@.take(digits@.len() as int) =~= digits@);
    }
    if value > 0xffff {
        return Err(failure(ErrorReason::UpstreamMalformed));
    }
    let f = value / 0o10000;
    let expected: &str = if f == 4 {
        "tree"
    } else if f == 8 || f == 10 {
        "blob"
    } else if f == 14 {
        "commit"
    } else {
        return Err(failure(ErrorReason::UpstreamMalformed));
    };
    let ty = chars_of(object_type);
    if !crate::text::chars_eq_str(ty.as_slice(), expected) {
        return Err(failure(ErrorReason::UpstreamMalformed));
    }
    let mode = value as u16;
    let disposition = if value == 0o40000 {
        EntryDisposition::Tree
    } else if value == 0o100644 || value == 0o100755 {
        EntryDisposition::Blob
    } else if value == 0o120000 {
        EntryDisposition::Link
    } else if value == 0o160000 {
        EntryDisposition::Commit
    } else if (value / 0o100000) % 2 == 1 {
        EntryDisposition::UnsupportedMode
    } else {
        return Err(failure(ErrorReason::UpstreamMalformed));
    };
    Ok((mode, disposition))
}

proof fn lemma_pow8_monotone(a: nat, b: nat)
    requires
        a <= b,
    ensures
        pow8(a) <= pow8(b),
    decreases b - a,
{
    if a < b {
        lemma_pow8_monotone(a, (b - 1) as nat);
    }
}

// ------------------------------------------------------------ trees

/// Bytewise lexicographic order.
pub open spec fn bytes_lt(a: Seq<u8>, b: Seq<u8>) -> bool
    decreases a.len(),
{
    if a.len() == 0 {
        b.len() > 0
    } else if b.len() == 0 {
        false
    } else if a[0] != b[0] {
        a[0] < b[0]
    } else {
        bytes_lt(a.drop_first(), b.drop_first())
    }
}

pub(crate) fn bytes_less(a: &[u8], b: &[u8]) -> (r: bool)
    ensures
        r == bytes_lt(a@, b@),
{
    let mut i: usize = 0;
    proof {
        assert(a@.skip(0) =~= a@);
        assert(b@.skip(0) =~= b@);
    }
    while i < a.len() && i < b.len() && a[i] == b[i]
        invariant
            i <= a@.len(),
            i <= b@.len(),
            bytes_lt(a@, b@) == bytes_lt(a@.skip(i as int), b@.skip(i as int)),
        decreases a@.len() - i,
    {
        proof {
            assert(a@.skip(i as int).drop_first() =~= a@.skip(i + 1));
            assert(b@.skip(i as int).drop_first() =~= b@.skip(i + 1));
        }
        i = i + 1;
    }
    if i == a.len() {
        proof {
            assert(a@.skip(i as int).len() == 0);
        }
        i < b.len()
    } else if i == b.len() {
        false
    } else {
        proof {
            assert(a@.skip(i as int)[0] == a@[i as int]);
            assert(b@.skip(i as int)[0] == b@[i as int]);
        }
        a[i] < b[i]
    }
}

/// A Git tree entry: mode, name and object id.
pub type GitEntry = (u16, Vec<u8>, Vec<u8>);

pub open spec fn entry_view(e: GitEntry) -> (u16, Seq<u8>, Seq<u8>) {
    (e.0, e.1@, e.2@)
}

pub open spec fn entry_views_of(s: Seq<GitEntry>) -> Seq<(u16, Seq<u8>, Seq<u8>)> {
    s.map_values(|e: GitEntry| entry_view(e))
}

/// A mode whose format bits name a tree.
pub open spec fn is_tree_mode(m: u16) -> bool {
    m / 0o10000 == 4
}

/// Git's tree order key: the name, followed by `/` for a tree.
pub open spec fn order_key(e: (u16, Seq<u8>, Seq<u8>)) -> Seq<u8> {
    if is_tree_mode(e.0) {
        e.1.push(47u8)
    } else {
        e.1
    }
}

/// Where insertion keeps `sorted` in key order: before the first entry
/// whose key is greater.
pub open spec fn insert_at(sorted: Seq<(u16, Seq<u8>, Seq<u8>)>, e: (u16, Seq<u8>, Seq<u8>)) -> nat
    decreases sorted.len(),
{
    if sorted.len() == 0 || bytes_lt(order_key(e), order_key(sorted[0])) {
        0
    } else {
        1 + insert_at(sorted.drop_first(), e)
    }
}

/// Entries in Git's tree order, by insertion.
pub open spec fn git_sorted(s: Seq<(u16, Seq<u8>, Seq<u8>)>) -> Seq<(u16, Seq<u8>, Seq<u8>)>
    decreases s.len(),
{
    if s.len() == 0 {
        s
    } else {
        let t = git_sorted(s.drop_last());
        t.insert(insert_at(t, s.last()) as int, s.last())
    }
}

proof fn lemma_insert_at_bound(sorted: Seq<(u16, Seq<u8>, Seq<u8>)>, e: (u16, Seq<u8>, Seq<u8>))
    ensures
        insert_at(sorted, e) <= sorted.len(),
    decreases sorted.len(),
{
    if sorted.len() > 0 {
        lemma_insert_at_bound(sorted.drop_first(), e);
    }
}

proof fn lemma_git_sorted_len(s: Seq<(u16, Seq<u8>, Seq<u8>)>)
    ensures
        git_sorted(s).len() == s.len(),
    decreases s.len(),
{
    if s.len() > 0 {
        lemma_git_sorted_len(s.drop_last());
        lemma_insert_at_bound(git_sorted(s.drop_last()), s.last());
    }
}

fn order_key_exec(e: &GitEntry) -> (k: Vec<u8>)
    ensures
        k@ == order_key(entry_view(*e)),
{
    let mut k: Vec<u8> = Vec::new();
    let mut i: usize = 0;
    while i < e.1.len()
        invariant
            i <= e.1@.len(),
            k@ == e.1@.take(i as int),
        decreases e.1@.len() - i,
    {
        k.push(e.1[i]);
        proof {
            assert(e.1@.take(i + 1) =~= e.1@.take(i as int).push(e.1@[i as int]));
        }
        i = i + 1;
    }
    proof {
        assert(e.1@.take(e.1@.len() as int) =~= e.1@);
    }
    if e.0 / 0o10000 == 4 {
        k.push(47);
    }
    k
}

/// Sorts entries into Git's tree order.
pub fn sort_entries(entries: Vec<GitEntry>) -> (r: Vec<GitEntry>)
    ensures
        entry_views_of(r@) == git_sorted(entry_views_of(entries@)),
{
    let mut sorted: Vec<GitEntry> = Vec::new();
    let n = entries.len();
    let mut rest = entries;
    let ghost all = entry_views_of(rest@);
    let mut k: usize = 0;
    proof {
        assert(all.take(0) =~= Seq::<(u16, Seq<u8>, Seq<u8>)>::empty());
        assert(entry_views_of(sorted@) =~= Seq::<(u16, Seq<u8>, Seq<u8>)>::empty());
        assert(entry_views_of(rest@) =~= all.skip(0));
    }
    while k < n
        invariant
            k <= n == all.len(),
            entry_views_of(rest@) == all.skip(k as int),
            entry_views_of(sorted@) == git_sorted(all.take(k as int)),
        decreases n - k,
    {
        let ghost before = rest@;
        proof {
            assert(entry_views_of(before).len() == before.len());
            assert(entry_views_of(before)[0] == all[k as int]);
        }
        let e = rest.remove(0);
        proof {
            assert(entry_views_of(rest@) =~= entry_views_of(before).drop_first());
            assert(all.skip(k as int).drop_first() =~= all.skip(k + 1));
        }
        let key = order_key_exec(&e);
        let ghost t = entry_views_of(sorted@);
        let mut i: usize = 0;
        proof {
            assert(t.skip(0) =~= t);
        }
        while i < sorted.len()
            invariant
                i <= sorted@.len(),
                t == entry_views_of(sorted@),
                key@ == order_key(entry_view(e)),
                insert_at(t, entry_view(e)) == i + insert_at(t.skip(i as int), entry_view(e)),
            ensures
                i <= sorted@.len(),
                t == entry_views_of(sorted@),
                insert_at(t, entry_view(e)) == i,
            decreases sorted@.len() - i,
        {
            let other = order_key_exec(&sorted[i]);
            proof {
                assert(t.skip(i as int)[0] == entry_view(sorted@[i as int]));
                assert(t.skip(i as int).drop_first() =~= t.skip(i + 1));
            }
            if bytes_less(key.as_slice(), other.as_slice()) {
                break;
            }
            i = i + 1;
        }
        proof {
            lemma_insert_at_bound(t, entry_view(e));
            assert(all.take(k + 1).drop_last() =~= all.take(k as int));
            assert(all.take(k + 1).last() == entry_view(e));
        }
        sorted.insert(i, e);
        proof {
            assert(entry_views_of(sorted@) =~= t.insert(i as int, entry_view(e)));
        }
        k = k + 1;
    }
    proof {
        assert(all.take(n as int) =~= all);
    }
    sorted
}

/// Entries in Git's tree order: no key is less than an earlier one.
pub open spec fn key_sorted(s: Seq<(u16, Seq<u8>, Seq<u8>)>) -> bool {
    forall|i: int, j: int| 0 <= i < j < s.len() ==> !bytes_lt(order_key(s[j]), order_key(s[i]))
}

pub(crate) proof fn lemma_bytes_lt_transitive(a: Seq<u8>, b: Seq<u8>, c: Seq<u8>)
    requires
        bytes_lt(a, b),
        bytes_lt(b, c),
    ensures
        bytes_lt(a, c),
    decreases a.len(),
{
    if a.len() > 0 && a[0] == b[0] && b[0] == c[0] {
        lemma_bytes_lt_transitive(a.drop_first(), b.drop_first(), c.drop_first());
    }
}

pub(crate) proof fn lemma_bytes_lt_irreflexive(a: Seq<u8>)
    ensures
        !bytes_lt(a, a),
    decreases a.len(),
{
    if a.len() > 0 {
        lemma_bytes_lt_irreflexive(a.drop_first());
    }
}

proof fn lemma_insert_at_facts(t: Seq<(u16, Seq<u8>, Seq<u8>)>, e: (u16, Seq<u8>, Seq<u8>))
    ensures
        insert_at(t, e) <= t.len(),
        forall|k: int| 0 <= k < insert_at(t, e) ==> !bytes_lt(order_key(e), order_key(#[trigger] t[k])),
        insert_at(t, e) < t.len() ==> bytes_lt(order_key(e), order_key(t[insert_at(t, e) as int])),
    decreases t.len(),
{
    if t.len() > 0 && !bytes_lt(order_key(e), order_key(t[0])) {
        lemma_insert_at_facts(t.drop_first(), e);
        let p = insert_at(t, e);
        assert forall|k: int| 0 <= k < p implies !bytes_lt(order_key(e), order_key(#[trigger] t[k])) by {
            if k > 0 {
                assert(t[k] == t.drop_first()[k - 1]);
            }
        }
        if p < t.len() {
            assert(t[p as int] == t.drop_first()[p - 1]);
        }
    }
}

/// Law: sorting keeps the entries and puts them in Git's tree order.
pub proof fn lemma_git_sorted_is_sorted(s: Seq<(u16, Seq<u8>, Seq<u8>)>)
    ensures
        key_sorted(git_sorted(s)),
        git_sorted(s).to_multiset() == s.to_multiset(),
    decreases s.len(),
{
    broadcast use vstd::seq_lib::to_multiset_insert, vstd::seq_lib::to_multiset_build;

    if s.len() > 0 {
        let t = git_sorted(s.drop_last());
        let e = s.last();
        lemma_git_sorted_is_sorted(s.drop_last());
        lemma_insert_at_facts(t, e);
        let p = insert_at(t, e) as int;
        let r = t.insert(p, e);
        assert forall|i: int, j: int| 0 <= i < j < r.len() implies !bytes_lt(order_key(r[j]), order_key(r[i])) by {
            if j < p {
                assert(r[i] == t[i] && r[j] == t[j]);
                assert(!bytes_lt(order_key(t[j]), order_key(t[i])));
            } else if j == p {
                assert(r[i] == t[i] && r[j] == e);
                assert(!bytes_lt(order_key(e), order_key(t[i])));
            } else if i < p {
                assert(r[i] == t[i] && r[j] == t[j - 1]);
                assert(!bytes_lt(order_key(t[j - 1]), order_key(t[i])));
            } else if i == p {
                assert(r[i] == e && r[j] == t[j - 1]);
                if bytes_lt(order_key(t[j - 1]), order_key(e)) {
                    lemma_bytes_lt_transitive(order_key(t[j - 1]), order_key(e), order_key(t[p]));
                    if j - 1 > p {
                        assert(!bytes_lt(order_key(t[j - 1]), order_key(t[p])));
                    } else {
                        lemma_bytes_lt_irreflexive(order_key(t[p]));
                    }
                }
            } else {
                assert(r[i] == t[i - 1] && r[j] == t[j - 1]);
                assert(!bytes_lt(order_key(t[j - 1]), order_key(t[i - 1])));
            }
        }
        assert(s =~= s.drop_last().push(e));
    }
}

/// The serialization `gix_object::Tree::write_to` gives entries (in the
/// order given), `None` when an entry's mode or id is refused or writing
/// fails.
pub uninterp spec fn git_tree_body(entries: Seq<(u16, Seq<u8>, Seq<u8>)>) -> Option<Seq<u8>>;

/// Builds `gix_object::tree::Entry` values (mode by `EntryMode::try_from`,
/// id by `ObjectId::try_from` on its bytes) and serializes them with
/// `Tree::write_to`. The contract only names the result. `write_to` asserts
/// (in debug builds) that the entries are already in Git's name order, so
/// the entries must come in `order_key` order: no later key below an earlier
/// one, which leaves Git's stable sort nothing to move.
#[verifier::external_body]
pub(crate) fn tree_body(entries: &[GitEntry]) -> (r: Option<Vec<u8>>)
    requires
        key_sorted(entry_views_of(entries@)),
    ensures
        match r {
            Some(b) => git_tree_body(entry_views_of(entries@)) == Some(b@),
            None => git_tree_body(entry_views_of(entries@)) is None,
        },
{
    let entries = entries.iter().map(|(mode, name, oid)| Some(gix_object::tree::Entry {
        mode: gix_object::tree::EntryMode::try_from(u32::from(*mode)).ok()?,
        filename: name.clone().into(),
        oid: gix_hash::ObjectId::try_from(oid.as_slice()).ok()?,
    })).collect::<Option<Vec<_>>>()?;
    let mut out = Vec::new();
    gix_object::WriteTo::write_to(&gix_object::Tree { entries }, &mut out).ok()?;
    Some(out)
}

/// One entry of a tree as the provider serves it.
#[derive(Debug)]
pub struct NativeTreeEntry {
    pub path: Presence<String>,
    pub mode: Presence<String>,
    pub kind: Presence<String>,
    pub sha: Presence<String>,
    pub size: Presence<u64>,
    pub url: Presence<String>,
}

/// A tree as the provider serves it.
#[derive(Debug)]
pub struct NativeGitTree {
    pub sha: Presence<String>,
    pub url: Presence<String>,
    pub tree: Presence<Vec<NativeTreeEntry>>,
    pub truncated: Presence<bool>,
}

/// A verified tree entry.
#[derive(Debug)]
pub struct VerifiedEntry {
    pub name: String,
    pub mode: String,
    pub object_type: String,
    pub object_sha: String,
    pub size: Presence<u64>,
    pub url: Presence<String>,
    pub disposition: EntryDisposition,
}

/// A verified tree: its id, link and entries in the provider's order.
#[derive(Debug)]
pub struct VerifiedTree {
    pub sha: String,
    pub url: Presence<String>,
    pub entries: Vec<VerifiedEntry>,
}

/// Why a tree is refused.
pub enum TreeRefusal {
    Facts(ErrorReason),
    /// More entries than the bound: their count.
    EntryLimit(nat),
}

pub open spec fn text(p: Presence<String>) -> Seq<char> {
    match p {
        Presence::Present(s) => s@,
        _ => Seq::empty(),
    }
}

/// One entry's Git entry: its id, its name (non-empty, without `/` or NUL)
/// and its mode, checked against its type.
pub open spec fn entry_spec(e: NativeTreeEntry) -> Result<(u16, Seq<u8>, Seq<u8>), ErrorReason> {
    if !(e.sha matches Presence::Present(s) && is_sha(s@)) {
        Err(ErrorReason::UpstreamMalformed)
    } else {
        match object_id_spec(vstd::utf8::encode_utf8(text(e.sha))) {
            None => Err(ErrorReason::UpstreamMalformed),
            Some(oid) => if !(e.path is Present && e.mode is Present && e.kind is Present) {
                Err(ErrorReason::UpstreamMalformed)
            } else {
                let name = text(e.path);
                if name.len() == 0 || name.contains('/') || name.contains('\0') {
                    Err(ErrorReason::UpstreamMalformed)
                } else {
                    match mode_spec(text(e.mode), text(e.kind)) {
                        None => Err(ErrorReason::UpstreamMalformed),
                        Some((mode, _)) => Ok((mode, vstd::utf8::encode_utf8(name), oid)),
                    }
                }
            },
        }
    }
}

/// Every entry's Git entry; the first refused entry refuses the tree.
pub open spec fn entries_spec(es: Seq<NativeTreeEntry>) -> Result<Seq<(u16, Seq<u8>, Seq<u8>)>, ErrorReason>
    decreases es.len(),
{
    if es.len() == 0 {
        Ok(Seq::empty())
    } else {
        match entries_spec(es.drop_last()) {
            Err(r) => Err(r),
            Ok(done) => match entry_spec(es.last()) {
                Err(r) => Err(r),
                Ok(g) => Ok(done.push(g)),
            },
        }
    }
}

pub open spec fn entry_names(es: Seq<NativeTreeEntry>) -> Seq<Seq<char>> {
    es.map_values(|e: NativeTreeEntry| text(e.path))
}

/// After the tree's own checks: its entries, their names, and its hash.
pub open spec fn tree_tail(es: Seq<NativeTreeEntry>, oid: Seq<u8>) -> Result<(), TreeRefusal> {
    match entries_spec(es) {
        Err(r) => Err(TreeRefusal::Facts(r)),
        Ok(gs) => if !entry_names(es).no_duplicates() {
            Err(TreeRefusal::Facts(ErrorReason::UpstreamMalformed))
        } else {
            match git_tree_body(git_sorted(gs)) {
                None => Err(TreeRefusal::Facts(ErrorReason::UpstreamMalformed)),
                Some(body) => if git_object_hash(true, body) == Some(oid) {
                    Ok(())
                } else {
                    Err(TreeRefusal::Facts(ErrorReason::UpstreamIdentityMismatch))
                },
            }
        },
    }
}

proof fn lemma_entries_err_extends(es: Seq<NativeTreeEntry>, i: int, r: ErrorReason)
    requires
        0 <= i <= es.len(),
        entries_spec(es.take(i)) == Err::<Seq<(u16, Seq<u8>, Seq<u8>)>, ErrorReason>(r),
    ensures
        entries_spec(es) == Err::<Seq<(u16, Seq<u8>, Seq<u8>)>, ErrorReason>(r),
    decreases es.len() - i,
{
    if i < es.len() {
        assert(es.take(i + 1).drop_last() =~= es.take(i));
        lemma_entries_err_extends(es, i + 1, r);
    } else {
        assert(es.take(i) =~= es);
    }
}

/// How a tree read as `requested` ends: its id must be `requested`; it must
/// be complete, within `max_entries`, with valid and uniquely named entries;
/// and its entries, in Git's order, must hash to its id. On success, its id.
pub open spec fn tree_outcome(native: NativeGitTree, requested: Seq<u8>, max_entries: nat) -> Result<(), TreeRefusal> {
    if !(native.sha matches Presence::Present(s) && is_sha(s@)) {
        Err(TreeRefusal::Facts(ErrorReason::UpstreamMalformed))
    } else {
        match (object_id_spec(vstd::utf8::encode_utf8(text(native.sha))), object_id_spec(requested)) {
            (Some(oid), Some(rid)) => if oid != rid {
                Err(TreeRefusal::Facts(ErrorReason::UpstreamIdentityMismatch))
            } else {
                match (native.tree, native.truncated) {
                    (Presence::Present(es), Presence::Present(t)) => if t {
                        Err(TreeRefusal::Facts(ErrorReason::UpstreamMalformed))
                    } else if es@.len() > max_entries {
                        Err(TreeRefusal::EntryLimit(es@.len()))
                    } else {
                        tree_tail(es@, oid)
                    },
                    _ => Err(TreeRefusal::Facts(ErrorReason::UpstreamMalformed)),
                }
            },
            _ => Err(TreeRefusal::Facts(ErrorReason::UpstreamMalformed)),
        }
    }
}

/// The refusal of a tree over its entry bound.
pub open spec fn is_tree_limit(e: ResourceError, bound: nat, observed: nat) -> bool {
    &&& e.category == crate::error::ErrorCategory::LimitExceeded
    &&& e.message@ == "GitHub tree exceeds the bounded entry limit"@
    &&& e.details matches Some(d) && d.reason == ErrorReason::LimitExceeded && d.limit == Some(
        crate::error::LimitDetail {
            kind: crate::error::AcquisitionLimitKind::CollectionRecords,
            bound: bound as u64,
            observed: Some(observed as u64),
        },
    )
}

fn tree_limit_error(bound: usize, observed: usize) -> (e: ResourceError)
    ensures
        is_tree_limit(e, bound as nat, observed as nat),
{
    let mut details = crate::error::ErrorDetails::new(ErrorReason::LimitExceeded);
    details.limit = Some(
        crate::error::LimitDetail {
            kind: crate::error::AcquisitionLimitKind::CollectionRecords,
            bound: bound as u64,
            observed: Some(observed as u64),
        },
    );
    ResourceError::new(crate::error::ErrorCategory::LimitExceeded, "GitHub tree exceeds the bounded entry limit")
        .with_details(details)
}

fn contains_char(s: &[char], c: char) -> (b: bool)
    ensures
        b == s@.contains(c),
{
    let mut i: usize = 0;
    while i < s.len()
        invariant
            i <= s@.len(),
            forall|k: int| 0 <= k < i ==> s@[k] != c,
        decreases s@.len() - i,
    {
        if s[i] == c {
            proof {
                assert(s@[i as int] == c);
            }
            return true;
        }
        i = i + 1;
    }
    false
}

fn utf8_bytes(s: &str) -> (b: Vec<u8>)
    ensures
        b@ == vstd::utf8::encode_utf8(s@),
{
    let bytes = s.as_bytes();
    let mut out: Vec<u8> = Vec::new();
    let mut i: usize = 0;
    while i < bytes.len()
        invariant
            i <= bytes@.len(),
            bytes@ == s.spec_bytes(),
            out@ == bytes@.take(i as int),
        decreases bytes@.len() - i,
    {
        out.push(bytes[i]);
        proof {
            assert(bytes@.take(i + 1) =~= bytes@.take(i as int).push(bytes@[i as int]));
        }
        i = i + 1;
    }
    proof {
        assert(bytes@.take(bytes@.len() as int) =~= bytes@);
    }
    out
}

fn copy_size(p: &Presence<u64>) -> (r: Presence<u64>)
    ensures
        r == *p,
{
    match p {
        Presence::Present(v) => Presence::Present(*v),
        Presence::Null => Presence::Null,
        Presence::Omitted => Presence::Omitted,
    }
}

fn copy_text(p: &Presence<String>) -> (r: Presence<String>)
    ensures
        match *p {
            Presence::Present(v) => r matches Presence::Present(s) && s@ == v@,
            Presence::Null => r is Null,
            Presence::Omitted => r is Omitted,
        },
{
    match p {
        Presence::Present(v) => Presence::Present(v.clone()),
        Presence::Null => Presence::Null,
        Presence::Omitted => Presence::Omitted,
    }
}

/// What an accepted mode names.
pub open spec fn disposition_of(raw: Seq<char>, object_type: Seq<char>) -> EntryDisposition {
    match mode_spec(raw, object_type) {
        Some((_, d)) => d,
        None => EntryDisposition::UnsupportedMode,
    }
}

fn check_entry(e: &NativeTreeEntry) -> (r: Result<(GitEntry, VerifiedEntry), ResourceError>)
    ensures
        match entry_spec(*e) {
            Ok(g) => r matches Ok((x, v)) && entry_view(x) == g && v.name@ == text(e.path) && v.mode@ == text(
                e.mode,
            ) && v.object_type@ == text(e.kind) && v.object_sha@ == text(e.sha) && v.disposition == disposition_of(text(e.mode), text(e.kind)),
            Err(reason) => r matches Err(x) && is_facts_failure(x, reason),
        },
{
    let observed = sha(&e.sha)?;
    let oid = match object_id_bytes(observed) {
        Some(o) => o,
        None => {
            return Err(failure(ErrorReason::UpstreamMalformed));
        },
    };
    let (name, mode, kind) = match (&e.path, &e.mode, &e.kind) {
        (Presence::Present(p), Presence::Present(m), Presence::Present(k)) => (p, m, k),
        _ => {
            return Err(failure(ErrorReason::UpstreamMalformed));
        },
    };
    let name_chars = chars_of(name.as_str());
    if name_chars.len() == 0 || contains_char(name_chars.as_slice(), '/') || contains_char(name_chars.as_slice(), '\0') {
        return Err(failure(ErrorReason::UpstreamMalformed));
    }
    let (entry_mode, disposition) = parse_mode(mode.as_str(), kind.as_str())?;
    let git = (entry_mode, utf8_bytes(name.as_str()), oid);
    let verified = VerifiedEntry {
        name: name.clone(),
        mode: mode.clone(),
        object_type: kind.clone(),
        object_sha: string_of(chars_of(observed).as_slice()),
        size: copy_size(&e.size),
        url: copy_text(&e.url),
        disposition,
    };
    Ok((git, verified))
}

fn names_unique(es: &[NativeTreeEntry]) -> (b: bool)
    ensures
        b == entry_names(es@).no_duplicates(),
{
    let ghost names = entry_names(es@);
    let mut i: usize = 0;
    while i < es.len()
        invariant
            i <= es@.len(),
            names == entry_names(es@),
            forall|a: int, b: int| 0 <= a < b < i ==> names[a] != names[b],
        decreases es@.len() - i,
    {
        let mut j: usize = 0;
        let this = chars_of(text_of_presence(&es[i].path));
        proof {
            assert(names[i as int] == text(es@[i as int].path));
        }
        while j < i
            invariant
                j <= i < es@.len(),
                names == entry_names(es@),
                this@ == names[i as int],
                forall|a: int| 0 <= a < j ==> names[a] != names[i as int],
            decreases i - j,
        {
            let other = chars_of(text_of_presence(&es[j].path));
            proof {
                assert(names[j as int] == text(es@[j as int].path));
            }
            if crate::github::same_chars(other.as_slice(), this.as_slice()) {
                proof {
                    assert(names[j as int] == names[i as int]);
                    assert(!names.no_duplicates());
                }
                return false;
            }
            j = j + 1;
        }
        i = i + 1;
    }
    proof {
        assert forall|a: int, b: int| 0 <= a < names.len() && 0 <= b < names.len() && a != b implies names[a] != names[b] by {
            if a < b {
            } else {
                assert(names[b] != names[a]);
            }
        }
    }
    true
}

fn text_of_presence(p: &Presence<String>) -> (s: &str)
    ensures
        s@ == text(*p),
{
    match p {
        Presence::Present(v) => v.as_str(),
        _ => {
            proof {
                reveal_strlit("");
            }
            ""
        },
    }
}

/// A verified entry keeps its entry's name and what its mode names.
pub open spec fn verifies(v: VerifiedEntry, e: NativeTreeEntry) -> bool {
    v.name@ == text(e.path) && v.disposition == disposition_of(text(e.mode), text(e.kind))
}

pub open spec fn verifies_prefix(vs: Seq<VerifiedEntry>, es: Seq<NativeTreeEntry>, n: int) -> bool {
    forall|k: int| 0 <= k < n ==> #[trigger] verifies(vs[k], es[k])
}

/// Validates a tree read as `requested`, with at most `max_entries`
/// entries: its id, completeness and entries, and that its entries in Git's
/// order hash to its id.
pub fn validate_tree(native: NativeGitTree, requested: &str, max_entries: usize) -> (r: Result<
    VerifiedTree,
    ResourceError,
>)
    ensures
        match tree_outcome(native, requested.spec_bytes(), max_entries as nat) {
            Ok(()) => r matches Ok(t) && t.sha@ == text(native.sha) && t.entries@.len() == (
            native.tree->Present_0)@.len() && verifies_prefix(t.entries@, (native.tree->Present_0)@, t.entries@.len() as int),
            Err(TreeRefusal::Facts(reason)) => r matches Err(e) && is_facts_failure(e, reason),
            Err(TreeRefusal::EntryLimit(n)) => r matches Err(e) && is_tree_limit(e, max_entries as nat, n),
        },
{
    let observed = sha(&native.sha)?;
    let oid = match object_id_bytes(observed) {
        Some(o) => o,
        None => {
            return Err(failure(ErrorReason::UpstreamMalformed));
        },
    };
    let rid = match object_id_bytes(requested) {
        Some(o) => o,
        None => {
            return Err(failure(ErrorReason::UpstreamMalformed));
        },
    };
    if !same_bytes(oid.as_slice(), rid.as_slice()) {
        return Err(failure(ErrorReason::UpstreamIdentityMismatch));
    }
    let entries = match &native.tree {
        Presence::Present(es) => es,
        _ => {
            return Err(failure(ErrorReason::UpstreamMalformed));
        },
    };
    let truncated = required(&native.truncated)?;
    if *truncated {
        return Err(failure(ErrorReason::UpstreamMalformed));
    }
    if entries.len() > max_entries {
        return Err(tree_limit_error(max_entries, entries.len()));
    }
    let mut git: Vec<GitEntry> = Vec::new();
    let mut verified: Vec<VerifiedEntry> = Vec::new();
    let mut i: usize = 0;
    proof {
        assert(entries@.take(0) =~= Seq::<NativeTreeEntry>::empty());
        assert(entry_views_of(git@) =~= Seq::<(u16, Seq<u8>, Seq<u8>)>::empty());
    }
    while i < entries.len()
        invariant
            i <= entries@.len(),
            entries_spec(entries@.take(i as int)) == Ok::<Seq<(u16, Seq<u8>, Seq<u8>)>, ErrorReason>(
                entry_views_of(git@),
            ),
            verified@.len() == i,
            verifies_prefix(verified@, entries@, i as int),
            native.tree == Presence::Present(*entries),
            tree_outcome(native, requested.spec_bytes(), max_entries as nat) == tree_tail(entries@, oid@),
        decreases entries@.len() - i,
    {
        proof {
            assert(entries@.take(i + 1).drop_last() =~= entries@.take(i as int));
            assert(entries@.take(i + 1).last() == entries@[i as int]);
        }
        let checked = check_entry(&entries[i]);
        let (g, v) = match checked {
            Ok(p) => p,
            Err(e) => {
                proof {
                    let reason = entry_spec(entries@[i as int])->Err_0;
                    lemma_entries_err_extends(entries@, i + 1, reason);
                }
                return Err(e);
            },
        };
        proof {
            assert(entry_spec(entries@[i as int]) is Ok);
            assert(v.name@ == text(entries@[i as int].path));
            assert(v.disposition == disposition_of(text(entries@[i as int].mode), text(entries@[i as int].kind)));
        }
        let ghost before = git@;
        let ghost vbefore = verified@;
        git.push(g);
        verified.push(v);
        proof {
            assert(entry_views_of(git@) =~= entry_views_of(before).push(entry_view(g)));
            assert forall|k: int| 0 <= k < i + 1 implies #[trigger] verifies(verified@[k], entries@[k]) by {
                if k < i {
                    assert(verified@[k] == vbefore[k]);
                    assert(verifies(vbefore[k], entries@[k]));
                } else {
                    assert(verified@[k] == v);
                }
            }
        }
        i = i + 1;
    }
    proof {
        assert(entries@.take(entries@.len() as int) =~= entries@);
    }
    if !names_unique(entries.as_slice()) {
        return Err(failure(ErrorReason::UpstreamMalformed));
    }
    let ghost git_views = entry_views_of(git@);
    let sorted = sort_entries(git);
    proof {
        lemma_git_sorted_is_sorted(git_views);
    }
    let body = match tree_body(sorted.as_slice()) {
        Some(b) => b,
        None => {
            return Err(failure(ErrorReason::UpstreamMalformed));
        },
    };
    let actual = match git_object_id(true, body.as_slice()) {
        Some(a) => a,
        None => {
            return Err(failure(ErrorReason::UpstreamIdentityMismatch));
        },
    };
    if !same_bytes(actual.as_slice(), oid.as_slice()) {
        return Err(failure(ErrorReason::UpstreamIdentityMismatch));
    }
    Ok(VerifiedTree { sha: string_of(chars_of(observed).as_slice()), url: copy_text(&native.url), entries: verified })
}

/// The object path a verified entry's API link must name: its tree or blob
/// below `git/`; a submodule commit belongs to another repository and has
/// none; any other type is malformed.
pub open spec fn selected_suffix(object_type: Seq<char>, sha: Seq<char>) -> Option<Option<Seq<char>>> {
    if object_type == "tree"@ {
        Some(Some("git/trees/"@ + sha))
    } else if object_type == "blob"@ {
        Some(Some("git/blobs/"@ + sha))
    } else if object_type == "commit"@ {
        Some(None)
    } else {
        None
    }
}

/// Confines the selected entry's link to this deployment's own object.
pub fn validate_selected_link(
    api: &ParsedUrl,
    repository: &GithubRepositoryIdentity,
    entry: &VerifiedEntry,
) -> (r: Result<(), ResourceError>)
    ensures
        match selected_suffix(entry.object_type@, entry.object_sha@) {
            None => r matches Err(e) && is_facts_failure(e, ErrorReason::UpstreamMalformed),
            Some(None) => r is Ok,
            Some(Some(suffix)) => match joined(api.parts(), object_path(*repository, suffix)) {
                None => r matches Err(e) && is_facts_failure(e, ErrorReason::UpstreamMalformed),
                Some(expected) => fails_with(
                    r,
                    match present_text(&entry.url) {
                        Some(v) if !spec_matches_object_url(v, expected) => Some(
                            ErrorReason::UpstreamIdentityMismatch,
                        ),
                        _ => None,
                    },
                ),
            },
        },
{
    let kind = chars_of(entry.object_type.as_str());
    let mut suffix = if crate::text::chars_eq_str(kind.as_slice(), "tree") {
        string_of(chars_of("git/trees/").as_slice())
    } else if crate::text::chars_eq_str(kind.as_slice(), "blob") {
        string_of(chars_of("git/blobs/").as_slice())
    } else if crate::text::chars_eq_str(kind.as_slice(), "commit") {
        return Ok(());
    } else {
        return Err(failure(ErrorReason::UpstreamMalformed));
    };
    crate::text::push_str(&mut suffix, entry.object_sha.as_str());
    let expected = expected_object_url(api, repository, suffix.as_str())?;
    validate_optional_object_link(&entry.url, &expected)
}

} // verus!
