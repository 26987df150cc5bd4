use resourcefs_sources::error::{ErrorReason, ResourceError};
use resourcefs_sources::facts::Presence;
use resourcefs_sources::objects::{exact_decoded_size, validate_blob, BlobResult, NativeBlob};

const HELLO: &str = "ce013625030ba8dba906f756967f9e9ca394464a";
const EMPTY: &str = "e69de29bb2d1d6434b8b29ae775ad8c2e48c5391";

fn reason(error: &ResourceError) -> Option<ErrorReason> {
    error.details.map(|d| d.reason)
}

fn hex(bytes: &[u8]) -> String {
    bytes.iter().map(|b| format!("{b:02x}")).collect()
}

fn blob(sha: &str, content: &str, size: Presence<u64>) -> NativeBlob {
    NativeBlob {
        sha: Presence::Present(sha.to_string()),
        url: Presence::Omitted,
        size,
        content: Presence::Present(content.to_string()),
        encoding: Presence::Present("base64".to_string()),
    }
}

#[test]
fn blob_ids_hash_the_decoded_loose_object() {
    let available = |sha: &str, content: &str| validate_blob(blob(sha, content, Presence::Omitted), sha, None, 100);
    assert!(matches!(available(HELLO, "aGVsbG8K").unwrap(), BlobResult::Available { decoded_size: 6, .. }));
    assert!(matches!(available(EMPTY, "").unwrap(), BlobResult::Available { decoded_size: 0, .. }));
    // Same length, other bytes: the decoded content no longer hashes to the id.
    assert_eq!(reason(&available(HELLO, "aGVsbG8L").unwrap_err()), Some(ErrorReason::UpstreamIdentityMismatch));
    assert_eq!(reason(&available(EMPTY, "aGVsbG8K").unwrap_err()), Some(ErrorReason::UpstreamIdentityMismatch));
    // An id that is not forty lowercase hexadecimal digits never reaches the hash.
    let upper = HELLO.to_uppercase();
    assert_eq!(reason(&available(&upper, "aGVsbG8K").unwrap_err()), Some(ErrorReason::UpstreamMalformed));
}

#[test]
fn decoded_sizes_come_from_the_shape() {
    assert_eq!(exact_decoded_size(b"").unwrap(), 0);
    assert_eq!(exact_decoded_size(b"aGVsbG8K").unwrap(), 6);
    assert_eq!(exact_decoded_size(b"aGk=").unwrap(), 2);
    assert_eq!(exact_decoded_size(b"aA==").unwrap(), 1);
    for bad in [&b"a==="[..], b"aGk", b"a=Gk", b"aGl=", b"aGk=aGk="] {
        assert_eq!(reason(&exact_decoded_size(bad).unwrap_err()), Some(ErrorReason::UpstreamMalformed));
    }
}

#[test]
fn blobs_are_checked_against_their_ids() {
    match validate_blob(blob(HELLO, "aGVs\r\nbG8K\n", Presence::Present(6)), HELLO, Some(6), 100).unwrap() {
        BlobResult::Available { bytes_base64, decoded_size } => {
            assert_eq!(bytes_base64, "aGVsbG8K");
            assert_eq!(decoded_size, 6);
        }
        other => panic!("unexpected {other:?}"),
    }
    match validate_blob(blob(HELLO, "aGVsbG8K", Presence::Null), HELLO, None, 5).unwrap() {
        BlobResult::Oversized { decoded_size } => assert_eq!(decoded_size, 6),
        other => panic!("unexpected {other:?}"),
    }
    let mismatch = |result: Result<BlobResult, ResourceError>| reason(&result.unwrap_err());
    assert_eq!(mismatch(validate_blob(blob(HELLO, "aGVsbG8K", Presence::Omitted), EMPTY, None, 100)), Some(ErrorReason::UpstreamIdentityMismatch));
    assert_eq!(mismatch(validate_blob(blob(EMPTY, "aGVsbG8K", Presence::Omitted), EMPTY, None, 100)), Some(ErrorReason::UpstreamIdentityMismatch));
    assert_eq!(mismatch(validate_blob(blob(HELLO, "aGVsbG8K", Presence::Present(7)), HELLO, None, 100)), Some(ErrorReason::UpstreamIdentityMismatch));
    assert_eq!(mismatch(validate_blob(blob(HELLO, "aGVsbG8K", Presence::Omitted), HELLO, Some(5), 100)), Some(ErrorReason::UpstreamIdentityMismatch));
    assert_eq!(mismatch(validate_blob(blob(HELLO, "aGVs bG8K", Presence::Omitted), HELLO, None, 100)), Some(ErrorReason::UpstreamMalformed));
    let mut utf8 = blob(HELLO, "aGVsbG8K", Presence::Omitted);
    utf8.encoding = Presence::Present("utf-8".to_string());
    assert_eq!(mismatch(validate_blob(utf8, HELLO, None, 100)), Some(ErrorReason::UpstreamMalformed));
    let mut empty = blob(EMPTY, "", Presence::Present(0));
    empty.url = Presence::Present("x".to_string());
    assert!(matches!(validate_blob(empty, EMPTY, Some(0), 0).unwrap(), BlobResult::Available { decoded_size: 0, .. }));
}

use resourcefs_sources::objects::{
    parse_mode, sort_entries, validate_tree, EntryDisposition, NativeGitTree, NativeTreeEntry,
};

const EMPTY_TREE: &str = "4b825dc642cb6eb9a060e54bf8d69288fbee4904";
const MIXED_TREE: &str = "98e3593e5ecd38bd3cd1bc5083242869f6a42798";

fn present(text: &str) -> Presence<String> {
    Presence::Present(text.to_string())
}

fn entry(path: &str, mode: &str, kind: &str, sha: &str) -> NativeTreeEntry {
    NativeTreeEntry {
        path: present(path),
        mode: present(mode),
        kind: present(kind),
        sha: present(sha),
        size: Presence::Omitted,
        url: Presence::Omitted,
    }
}

fn tree(sha: &str, entries: Vec<NativeTreeEntry>) -> NativeGitTree {
    NativeGitTree {
        sha: present(sha),
        url: present("https://api.github.com/repos/o/r/git/trees/x"),
        tree: Presence::Present(entries),
        truncated: Presence::Present(false),
    }
}

fn mixed() -> Vec<NativeTreeEntry> {
    vec![
        entry("run", "100755", "blob", EMPTY),
        entry("a", "040000", "tree", EMPTY_TREE),
        entry("a.b", "100644", "blob", HELLO),
    ]
}

#[test]
fn modes_name_their_objects() {
    assert_eq!(parse_mode("40000", "tree").unwrap(), (0o40000, EntryDisposition::Tree));
    assert_eq!(parse_mode("040000", "tree").unwrap(), (0o40000, EntryDisposition::Tree));
    assert_eq!(parse_mode("100644", "blob").unwrap(), (0o100644, EntryDisposition::Blob));
    assert_eq!(parse_mode("100755", "blob").unwrap(), (0o100755, EntryDisposition::Blob));
    assert_eq!(parse_mode("120000", "blob").unwrap(), (0o120000, EntryDisposition::Link));
    assert_eq!(parse_mode("160000", "commit").unwrap(), (0o160000, EntryDisposition::Commit));
    assert_eq!(parse_mode("100664", "blob").unwrap(), (0o100664, EntryDisposition::UnsupportedMode));
    for (raw, kind) in [("", "blob"), ("1006440", "blob"), ("10064x", "blob"), ("100644", "tree"), ("040755", "tree"), ("140000", "tree"), ("777777", "blob")] {
        assert_eq!(reason(&parse_mode(raw, kind).unwrap_err()), Some(ErrorReason::UpstreamMalformed));
    }
}

#[test]
fn entries_sort_in_git_order() {
    let oid = vec![0u8; 20];
    let sorted = sort_entries(vec![
        (0o100644, b"b".to_vec(), oid.clone()),
        (0o40000, b"a".to_vec(), oid.clone()),
        (0o100644, b"a.b".to_vec(), oid.clone()),
        (0o100644, b"a0".to_vec(), oid.clone()),
    ]);
    let names: Vec<&[u8]> = sorted.iter().map(|e| e.1.as_slice()).collect();
    assert_eq!(names, vec![&b"a.b"[..], b"a", b"a0", b"b"]);
}

#[test]
fn trees_hash_to_their_ids() {
    let verified = validate_tree(tree(MIXED_TREE, mixed()), MIXED_TREE, 10).unwrap();
    assert_eq!(verified.sha, MIXED_TREE);
    let names: Vec<&str> = verified.entries.iter().map(|e| e.name.as_str()).collect();
    assert_eq!(names, vec!["run", "a", "a.b"]);
    assert_eq!(verified.entries[0].disposition, EntryDisposition::Blob);
    assert_eq!(verified.entries[1].disposition, EntryDisposition::Tree);
    let empty = validate_tree(tree(EMPTY_TREE, vec![]), &EMPTY_TREE.to_uppercase(), 10).unwrap();
    assert!(empty.entries.is_empty());
}

#[test]
fn trees_refuse_contradictions() {
    let refusal = |t: NativeGitTree, requested: &str, max: usize| validate_tree(t, requested, max).unwrap_err();
    assert_eq!(reason(&refusal(tree(MIXED_TREE, mixed()), EMPTY_TREE, 10)), Some(ErrorReason::UpstreamIdentityMismatch));
    assert_eq!(reason(&refusal(tree(EMPTY_TREE, mixed()), EMPTY_TREE, 10)), Some(ErrorReason::UpstreamIdentityMismatch));
    let mut truncated = tree(MIXED_TREE, mixed());
    truncated.truncated = Presence::Present(true);
    assert_eq!(reason(&refusal(truncated, MIXED_TREE, 10)), Some(ErrorReason::UpstreamMalformed));
    let limit = refusal(tree(MIXED_TREE, mixed()), MIXED_TREE, 2);
    assert_eq!(limit.message, "GitHub tree exceeds the bounded entry limit");
    assert_eq!(limit.details.unwrap().limit.unwrap().observed, Some(3));
    let mut slash = mixed();
    slash[0].path = present("x/y");
    assert_eq!(reason(&refusal(tree(MIXED_TREE, slash), MIXED_TREE, 10)), Some(ErrorReason::UpstreamMalformed));
    let mut twice = mixed();
    twice[2].path = present("run");
    assert_eq!(reason(&refusal(tree(MIXED_TREE, twice), MIXED_TREE, 10)), Some(ErrorReason::UpstreamMalformed));
    let mut wrong_type = mixed();
    wrong_type[1].kind = present("blob");
    assert_eq!(reason(&refusal(tree(MIXED_TREE, wrong_type), MIXED_TREE, 10)), Some(ErrorReason::UpstreamMalformed));
}

use resourcefs_sources::github::{api_base, GithubRepositoryIdentity};
use resourcefs_sources::objects::{validate_selected_link, VerifiedEntry};

fn verified_entry(object_type: &str, url: Presence<String>) -> VerifiedEntry {
    VerifiedEntry {
        name: "a".to_string(),
        mode: "100644".to_string(),
        object_type: object_type.to_string(),
        object_sha: HELLO.to_string(),
        size: Presence::Omitted,
        url,
        disposition: EntryDisposition::Blob,
    }
}

#[test]
fn selected_entries_link_to_their_own_objects() {
    let api = api_base("https://api.github.com").unwrap();
    let repo = GithubRepositoryIdentity { owner: "o".to_string(), repository: "r".to_string() };
    let own = present(&format!("https://api.github.com/repos/o/r/git/blobs/{HELLO}"));
    assert!(validate_selected_link(&api, &repo, &verified_entry("blob", own)).is_ok());
    let tree_link = present(&format!("https://api.github.com/repos/o/r/git/trees/{HELLO}"));
    assert!(validate_selected_link(&api, &repo, &verified_entry("tree", tree_link)).is_ok());
    let wrong = present(&format!("https://api.github.com/repos/o/r/git/trees/{HELLO}"));
    assert_eq!(reason(&validate_selected_link(&api, &repo, &verified_entry("blob", wrong)).unwrap_err()), Some(ErrorReason::UpstreamIdentityMismatch));
    assert!(validate_selected_link(&api, &repo, &verified_entry("commit", present("anything"))).is_ok());
    assert_eq!(reason(&validate_selected_link(&api, &repo, &verified_entry("tag", Presence::Null)).unwrap_err()), Some(ErrorReason::UpstreamMalformed));
}
