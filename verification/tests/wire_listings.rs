use resourcefs_sources::github_wire::{inspect_github_wire_for_test, ConversationComment, DiffFile, SimpleUser, WireDocument};

fn comment(id: u64, body: Option<&str>) -> ConversationComment {
    ConversationComment {
        id,
        body: body.map(str::to_string),
        user: Some(SimpleUser { login: "octo".to_string(), id: 1 }),
        created_at: "t0".to_string(),
        updated_at: "t1".to_string(),
        issue_url: "u".to_string(),
    }
}

#[test]
fn concatenated_comment_listings_observe_both_halves() {
    let a = vec![comment(1, Some("hi")), comment(2, None)];
    let b = vec![comment(3, Some("there"))];
    let x = inspect_github_wire_for_test(&WireDocument::ConversationComments(a.clone())).unwrap();
    let y = inspect_github_wire_for_test(&WireDocument::ConversationComments(b.clone())).unwrap();
    let ab: Vec<ConversationComment> = a.into_iter().chain(b).collect();
    let z = inspect_github_wire_for_test(&WireDocument::ConversationComments(ab)).unwrap();
    assert_eq!(z.ids(), [x.ids(), y.ids()].concat().as_slice());
    assert!(z.numbers().is_empty());
    assert_eq!(z.retained_bytes(), x.retained_bytes() + y.retained_bytes());
    let absent: Vec<_> = x.absent_fields().iter().chain(y.absent_fields().iter()).cloned().collect();
    assert_eq!(z.absent_fields().to_vec(), absent);
}

#[test]
fn concatenated_file_listings_add_their_retained_bytes() {
    let file = |name: &str, patch: Option<&str>| DiffFile {
        filename: name.to_string(),
        status: "modified".to_string(),
        patch: patch.map(str::to_string),
    };
    let a = vec![file("a.rs", Some("@@"))];
    let b = vec![file("b.rs", None)];
    let x = inspect_github_wire_for_test(&WireDocument::DiffFiles(a.clone())).unwrap();
    let y = inspect_github_wire_for_test(&WireDocument::DiffFiles(b.clone())).unwrap();
    let z = inspect_github_wire_for_test(&WireDocument::DiffFiles([a, b].concat())).unwrap();
    assert_eq!(z.retained_bytes(), x.retained_bytes() + y.retained_bytes());
    assert_eq!(z.absent_fields().to_vec(), vec!["patch"]);
}
