use resourcefs_sources::error::ErrorCategory;
use resourcefs_sources::github::GithubRepositoryIdentity;
use resourcefs_sources::github_wire::{
    ConversationComment, DiffFile, Issue, PullRequest, PullRequestSummary, Review, ReviewComment,
    SimpleUser,
};
use resourcefs_sources::render::{
    comment, diff_file, issue_aggregate, pull_request_aggregate, review, review_comment,
    sort_comments, sort_reviews,
};
use resourcefs_sources::resource::{
    checked_issue, comments_page, diff_file_location, diff_file_resource, diff_page,
    issue_aggregate_resource, issue_collection, page_reference, plan_issue_read, plan_pull_read,
    pull_collection, write_continuation_line, IssueRead, IssueResource, PullRead,
    PullRequestResource, Rendered,
};

fn repo() -> GithubRepositoryIdentity {
    GithubRepositoryIdentity { owner: "owner".to_string(), repository: "repo".to_string() }
}

fn octo() -> Option<SimpleUser> {
    Some(SimpleUser { login: "octo".to_string(), id: 1 })
}

fn conversation(id: u64, created: &str, body: Option<&str>) -> ConversationComment {
    ConversationComment {
        id,
        body: body.map(str::to_string),
        user: octo(),
        created_at: created.to_string(),
        updated_at: "u".to_string(),
        issue_url: "https://api.github.com/repos/owner/repo/issues/7".to_string(),
    }
}

fn listed_issue(number: u64, updated: &str, pull_request: bool) -> Issue {
    Issue {
        id: number + 1000,
        number,
        state: "open".to_string(),
        title: format!("T{number}"),
        body: None,
        user: octo(),
        html_url: format!("https://github.com/owner/repo/issues/{number}"),
        created_at: "c".to_string(),
        updated_at: updated.to_string(),
        pull_request,
    }
}

#[test]
fn comments_sort_by_creation_then_id_keeping_ties_stable() {
    let sorted = sort_comments(vec![
        conversation(9, "2024-02", Some("late")),
        conversation(3, "2024-01", Some("early")),
        conversation(4, "2024-01", Some("early, higher id")),
    ]);
    let ids: Vec<u64> = sorted.iter().map(|c| c.id).collect();
    assert_eq!(ids, vec![3, 4, 9]);
}

#[test]
fn pending_reviews_sort_first() {
    let make = |id: u64, submitted: Option<&str>| Review {
        id,
        body: String::new(),
        user: octo(),
        state: "COMMENTED".to_string(),
        submitted_at: submitted.map(str::to_string),
        commit_id: None,
    };
    let sorted = sort_reviews(vec![make(5, Some("2024-01")), make(7, None), make(2, Some("2023-12"))]);
    let ids: Vec<u64> = sorted.iter().map(|r| r.id).collect();
    assert_eq!(ids, vec![7, 2, 5]);
}

#[test]
fn single_parts_render_exactly() {
    let c = conversation(5, "2024-01-01T00:00:00Z", Some("hi"));
    assert_eq!(comment(&c), "Author: octo\nCreated: 2024-01-01T00:00:00Z\nUpdated: u\n\nhi");
    let deleted = ConversationComment { user: None, body: None, ..conversation(6, "c", None) };
    assert_eq!(comment(&deleted), "Author: [deleted]\nCreated: c\nUpdated: u\n\n(no body)");

    let r = Review {
        id: 3,
        body: "Ship it".to_string(),
        user: octo(),
        state: "APPROVED".to_string(),
        submitted_at: None,
        commit_id: Some("abc".to_string()),
    };
    assert_eq!(
        review(&r),
        "State: APPROVED\nAuthor: octo\nSubmitted: pending\nCommit: abc\n\nShip it"
    );

    let rc = ReviewComment {
        id: 11,
        body: "nit".to_string(),
        user: None,
        path: "src/lib.rs".to_string(),
        diff_hunk: "@@ -1 +1 @@".to_string(),
        created_at: "c".to_string(),
        updated_at: "u".to_string(),
        pull_request_review_id: Some(3),
        pull_request_url: "https://api.github.com/repos/owner/repo/pulls/7".to_string(),
    };
    assert_eq!(
        review_comment(&rc),
        "Author: [deleted]\nPath: src/lib.rs\nCreated: c\nUpdated: u\nReview ID: 3\nDiff hunk: @@ -1 +1 @@\n\nnit\n"
    );

    let f = DiffFile { filename: "a.rs".to_string(), status: "added".to_string(), patch: None };
    assert_eq!(diff_file(&f), "File: a.rs\nStatus: added\nPatch: unavailable");
}

#[test]
fn issue_aggregate_lists_comments_oldest_first() {
    let issue = Issue {
        id: 70,
        number: 7,
        state: "open".to_string(),
        title: "Bug".to_string(),
        body: None,
        user: None,
        html_url: "https://github.com/owner/repo/issues/7".to_string(),
        created_at: "c".to_string(),
        updated_at: "u".to_string(),
        pull_request: false,
    };
    let text = issue_aggregate(
        &repo(),
        &issue,
        vec![conversation(9, "2024-02", Some("second")), conversation(3, "2024-01", Some("first"))],
    );
    let expected = "# Issue #7: Bug\n\nKind: issue\nNumber: 7\nState: open\nAuthor: [deleted]\nCreated: c\nUpdated: u\nURL: https://github.com/owner/repo/issues/7\nTitle: issue://owner/repo/7/title\nBody: issue://owner/repo/7/body\n\n## Body\n\n(no body)\n\n## Conversation comments\n\n### Comment 3\nAuthor: octo\nCreated: 2024-01\nUpdated: u\nReference: issue://owner/repo/7/comments/3\n\nfirst\n\n### Comment 9\nAuthor: octo\nCreated: 2024-02\nUpdated: u\nReference: issue://owner/repo/7/comments/9\n\nsecond\n";
    assert_eq!(text, expected);
}

#[test]
fn pull_aggregate_numbers_diff_files_from_one() {
    let pull = PullRequest {
        id: 80,
        number: 8,
        state: "open".to_string(),
        title: "Feature".to_string(),
        body: Some("Adds it".to_string()),
        user: octo(),
        html_url: "https://github.com/owner/repo/pull/8".to_string(),
        created_at: "c".to_string(),
        updated_at: "u".to_string(),
        draft: true,
        merged: false,
        merged_at: None,
        head: "feature".to_string(),
        base: "main".to_string(),
    };
    let files = vec![
        DiffFile { filename: "a.rs".to_string(), status: "added".to_string(), patch: Some("+x".to_string()) },
        DiffFile { filename: "b.bin".to_string(), status: "modified".to_string(), patch: None },
    ];
    let text = pull_request_aggregate(&repo(), &pull, vec![], vec![], vec![], &files);
    let expected = "# Pull request #8: Feature\n\nKind: pull request\nNumber: 8\nState: open\nAuthor: octo\nCreated: c\nUpdated: u\nURL: https://github.com/owner/repo/pull/8\nDraft: true\nMerged: false\nMerged at: not merged\nHead: feature\nBase: main\nTitle: pr://owner/repo/8/title\nBody: pr://owner/repo/8/body\n\n## Body\n\nAdds it\n\n## Conversation comments\n\n## Reviews\n\n## Inline review comments\n\n## Diff\n- pr://owner/repo/8/diff/1 \u{2014} a.rs (added)\n- pr://owner/repo/8/diff/2 \u{2014} b.bin (modified; patch unavailable)\n";
    assert_eq!(text, expected);
}

#[test]
fn continuation_line_ends_the_text() {
    let mut content = "body".to_string();
    write_continuation_line(&mut content, "issue://owner/repo:page:2");
    assert_eq!(content, "body\n\nContinuation: issue://owner/repo:page:2\n");
    let mut ended = "line\n".to_string();
    write_continuation_line(&mut ended, "x");
    assert_eq!(ended, "line\n\nContinuation: x\n");
    let mut empty = String::new();
    write_continuation_line(&mut empty, "x");
    assert_eq!(empty, "\nContinuation: x\n");
    assert_eq!(page_reference("pr://owner/repo/8/diff", 3), "pr://owner/repo/8/diff:page:3");
    let aggregate = Rendered::aggregate("a".to_string(), &["r1".to_string(), "r2".to_string()]);
    assert_eq!(aggregate.content, "a\n\nContinuation: r1\n\nContinuation: r2\n");
    assert!(aggregate.continuation.is_none());
}

#[test]
fn issue_collection_leaves_out_pull_requests_and_lists_latest_first() {
    let page = issue_collection(
        &repo(),
        vec![
            listed_issue(1, "2024-01", false),
            listed_issue(2, "2024-03", true),
            listed_issue(3, "2024-02", false),
        ],
        Some(2),
    )
    .expect("valid listing");
    assert_eq!(
        page.content,
        "# Issues: owner/repo\n- issue://owner/repo/3 \u{2014} T3 [open] by octo (updated 2024-02)\n- issue://owner/repo/1 \u{2014} T1 [open] by octo (updated 2024-01)\n\nContinuation: issue://owner/repo:page:2\n"
    );
    assert_eq!(page.continuation.as_deref(), Some("issue://owner/repo:page:2"));
}

#[test]
fn an_issue_page_of_only_pull_requests_says_so() {
    let page = issue_collection(&repo(), vec![listed_issue(2, "2024-03", true)], Some(2)).expect("valid");
    assert_eq!(
        page.content,
        "# Issues: owner/repo\n\n(no issues on this page)\n\nContinuation: issue://owner/repo:page:2\n"
    );
    let last = issue_collection(&repo(), vec![], None).expect("valid");
    assert_eq!(last.content, "# Issues: owner/repo\n\n(no issues)\n");
    assert!(last.continuation.is_none());
}

#[test]
fn duplicate_listed_numbers_are_refused() {
    let error = issue_collection(
        &repo(),
        vec![listed_issue(1, "2024-01", false), Issue { id: 99, ..listed_issue(1, "2024-02", false) }],
        None,
    )
    .expect_err("duplicate number");
    assert_eq!(error.category, ErrorCategory::SourceUnavailable);
    assert_eq!(error.message, "GitHub issue listing contains invalid required fields");
}

#[test]
fn pull_collection_marks_merged_and_draft_pulls() {
    let summary = |number: u64, updated: &str, merged: bool, draft: bool| PullRequestSummary {
        id: number + 500,
        number,
        state: "closed".to_string(),
        title: format!("P{number}"),
        user: octo(),
        html_url: format!("https://github.com/owner/repo/pull/{number}"),
        updated_at: updated.to_string(),
        draft,
        merged_at: if merged { Some("m".to_string()) } else { None },
    };
    let page = pull_collection(&repo(), vec![summary(4, "2024-01", true, false), summary(5, "2024-02", false, true)], None)
        .expect("valid");
    assert_eq!(
        page.content,
        "# Pull requests: owner/repo\n- pr://owner/repo/5 \u{2014} P5 [closed, draft] by octo (updated 2024-02; https://github.com/owner/repo/pull/5)\n- pr://owner/repo/4 \u{2014} P4 [merged] by octo (updated 2024-01; https://github.com/owner/repo/pull/4)\n"
    );
}

#[test]
fn comment_listing_leads_each_entry_with_its_reference() {
    let page = comments_page(
        "issue://owner/repo/7",
        vec![conversation(9, "2024-02", Some("b")), conversation(3, "2024-01", Some("a"))],
        None,
    )
    .expect("valid comments");
    assert_eq!(
        page.content,
        "issue://owner/repo/7/comments/3\nAuthor: octo\nCreated: 2024-01\nUpdated: u\n\na\n\nissue://owner/repo/7/comments/9\nAuthor: octo\nCreated: 2024-02\nUpdated: u\n\nb"
    );
}

#[test]
fn diff_pages_number_files_across_pages() {
    let files = vec![
        DiffFile { filename: "a".to_string(), status: "added".to_string(), patch: None },
        DiffFile { filename: "b".to_string(), status: "removed".to_string(), patch: None },
    ];
    let page = diff_page("pr://owner/repo/8", 2, files, Some(3)).expect("page two");
    assert_eq!(
        page.content,
        "pr://owner/repo/8/diff/101 \u{2014} a (added)\npr://owner/repo/8/diff/102 \u{2014} b (removed)\n\nContinuation: pr://owner/repo/8/diff:page:3\n"
    );
    let zero = diff_page("pr://owner/repo/8", 0, vec![], None).expect_err("page zero");
    assert_eq!(zero.category, ErrorCategory::LimitExceeded);
    assert_eq!(diff_file_location(1), (1, 0));
    assert_eq!(diff_file_location(100), (1, 99));
    assert_eq!(diff_file_location(101), (2, 0));
    assert_eq!(diff_file_location(0), (1, 0));
    let missing = diff_file_resource(&[], 0).expect_err("empty page");
    assert_eq!(missing.category, ErrorCategory::NotFound);
}

#[test]
fn issue_numbers_naming_pull_requests_are_not_issues() {
    let error = checked_issue(listed_issue(7, "u", true), 7).expect_err("pull request");
    assert_eq!(error.category, ErrorCategory::NotFound);
    let mismatch = checked_issue(listed_issue(7, "u", false), 8).expect_err("other number");
    assert_eq!(mismatch.message, "GitHub issue number does not match its Path Reference");
}

#[test]
fn aggregate_names_its_comment_continuation() {
    let issue = listed_issue(7, "u", false);
    let page = issue_aggregate_resource(&repo(), 7, &issue, vec![], Some(2)).expect("valid");
    assert!(page.content.ends_with("\n## Conversation comments\n\nContinuation: issue://owner/repo/7/comments:page:2\n"));
    assert!(page.continuation.is_none());
}

#[test]
fn only_listings_accept_a_page() {
    assert_eq!(plan_issue_read(IssueResource::Comments, Some(3)).ok(), Some(IssueRead::Comments(3)));
    assert_eq!(plan_issue_read(IssueResource::Comments, None).ok(), Some(IssueRead::Comments(1)));
    let error = plan_issue_read(IssueResource::Title, Some(2)).expect_err("paged title");
    assert_eq!(error.category, ErrorCategory::UnsupportedProjection);
    assert!(plan_issue_read(IssueResource::CommentsNew, None).is_err());
    assert_eq!(plan_pull_read(PullRequestResource::Diff, None).ok(), Some(PullRead::UnifiedDiff));
    assert_eq!(plan_pull_read(PullRequestResource::Diff, Some(2)).ok(), Some(PullRead::DiffPage(2)));
    assert_eq!(
        plan_pull_read(PullRequestResource::DiffFile(101), None).ok(),
        Some(PullRead::DiffFile { page: 2, offset: 0 })
    );
    assert!(plan_pull_read(PullRequestResource::Facts, None).is_err());
    assert!(plan_pull_read(PullRequestResource::Review(4), Some(1)).is_err());
}
