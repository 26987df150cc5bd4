use resourcefs_sources::error::{ErrorCategory, ResourceError};
use resourcefs_sources::paths::{
    line_step, normalize_relative_symlink_target, resolve_absolute_match, rewritten_symlink_path, LineStep,
    PathComponent,
};

fn normal(name: &str) -> PathComponent {
    PathComponent::Normal(name.to_string())
}

fn strings(names: &[&str]) -> Vec<String> {
    names.iter().map(|n| n.to_string()).collect()
}

fn escaped(error: ResourceError) {
    assert_eq!(error.category, ErrorCategory::PermissionDenied);
    assert_eq!(error.message, "Resource symlink resolves outside the selected Workspace Root");
}

#[test]
fn relative_targets_normalize_inside_their_root() {
    let target = [normal("a"), PathComponent::CurDir, normal("b"), PathComponent::ParentDir, normal("c")];
    assert_eq!(normalize_relative_symlink_target(&target).unwrap(), strings(&["a", "c"]));
    assert_eq!(normalize_relative_symlink_target(&[]).unwrap(), Vec::<String>::new());
    assert_eq!(normalize_relative_symlink_target(&[normal("a"), PathComponent::ParentDir]).unwrap(), Vec::<String>::new());
    escaped(normalize_relative_symlink_target(&[PathComponent::ParentDir, normal("a")]).unwrap_err());
    escaped(normalize_relative_symlink_target(&[normal("a"), PathComponent::ParentDir, PathComponent::ParentDir]).unwrap_err());
    escaped(normalize_relative_symlink_target(&[PathComponent::RootDir, normal("etc")]).unwrap_err());
    escaped(normalize_relative_symlink_target(&[PathComponent::Prefix]).unwrap_err());
}

#[test]
fn names_alone_are_kept_unchanged() {
    let target = [normal("x"), normal(".hidden"), normal("y")];
    assert_eq!(normalize_relative_symlink_target(&target).unwrap(), strings(&["x", ".hidden", "y"]));
}

#[test]
fn rewritten_symlinks_append_what_followed_the_link() {
    let target = [normal("docs"), PathComponent::ParentDir, normal("notes")];
    assert_eq!(rewritten_symlink_path(&target, &strings(&["a", "b.md"])).unwrap(), strings(&["notes", "a", "b.md"]));
    escaped(rewritten_symlink_path(&[PathComponent::ParentDir], &strings(&["a"])).unwrap_err());
}

#[test]
fn absolute_targets_resolve_beneath_exactly_one_root() {
    let beneath = vec![None, Some(strings(&["src", "lib.rs"])), None];
    assert_eq!(resolve_absolute_match(&beneath).unwrap(), 1);
    let ambiguous = resolve_absolute_match(&[Some(strings(&["a"])), Some(strings(&["b"]))]).unwrap_err();
    assert_eq!(ambiguous.category, ErrorCategory::AmbiguousReference);
    assert_eq!(ambiguous.message, "absolute Resource resolves beneath multiple Workspace Roots");
    let nested = resolve_absolute_match(&[Some(Vec::new()), Some(strings(&["b"]))]).unwrap_err();
    assert_eq!(nested.category, ErrorCategory::AmbiguousReference);
    let root = resolve_absolute_match(&[Some(Vec::new()), None]).unwrap_err();
    assert_eq!(root.category, ErrorCategory::UnsupportedProjection);
    assert_eq!(root.message, "Workspace Root directory is not a text file");
    let twice_root = resolve_absolute_match(&[Some(Vec::new()), Some(Vec::new())]).unwrap_err();
    assert_eq!(twice_root.category, ErrorCategory::UnsupportedProjection);
    let outside = resolve_absolute_match(&[None, None]).unwrap_err();
    assert_eq!(outside.category, ErrorCategory::PermissionDenied);
    assert_eq!(outside.message, "absolute Resource resolves outside every configured Workspace Root");
    assert_eq!(resolve_absolute_match(&[]).unwrap_err().category, ErrorCategory::PermissionDenied);
}

#[test]
fn lines_are_cut_at_their_first_newline_within_the_bound() {
    assert_eq!(line_step(b"", 0, 10, "too long").unwrap(), LineStep::End);
    assert_eq!(line_step(b"ab\ncd", 0, 10, "too long").unwrap(), LineStep::Chunk { consumed: 3, terminated: true });
    assert_eq!(line_step(b"abcd", 2, 10, "too long").unwrap(), LineStep::Chunk { consumed: 4, terminated: false });
    assert_eq!(line_step(b"\n", 0, 1, "too long").unwrap(), LineStep::Chunk { consumed: 1, terminated: true });
    let refused = line_step(b"abcd\n", 6, 10, "line too long").unwrap_err();
    assert_eq!(refused.category, ErrorCategory::LimitExceeded);
    assert_eq!(refused.message, "line too long");
    assert!(line_step(b"abc\n", 6, 10, "line too long").is_ok());
}

use resourcefs_sources::paths::{
    gitignore_open_step, gitignore_read_failure, gitignore_rule, hidden_name, ignored_by_stack, sort_names,
    GitignoreOpen, GitignoreStep, IgnoreMatch, WalkControls, WalkDecision, WalkState,
};

#[test]
fn children_are_walked_in_ascending_byte_order() {
    let names = vec![b"b".to_vec(), b"a.b".to_vec(), b"B".to_vec(), b"a".to_vec(), b"a".to_vec()];
    let sorted = sort_names(names);
    assert_eq!(sorted, vec![b"B".to_vec(), b"a".to_vec(), b"a".to_vec(), b"a.b".to_vec(), b"b".to_vec()]);
    assert!(sort_names(Vec::new()).is_empty());
}

#[test]
fn walks_visit_each_entry_once_and_honour_their_controls() {
    let all = WalkControls { hidden: true, gitignore: true };
    let plain = WalkControls { hidden: false, gitignore: true };
    let mut state = WalkState::new();
    assert_eq!(state.admit_walk_entry(plain, "rfs://workspace/w/.env", false, true, false), WalkDecision::Skip);
    assert_eq!(state.admit_walk_entry(all, "rfs://workspace/w/.env", false, true, false), WalkDecision::VisitFile);
    assert_eq!(state.admit_walk_entry(all, "rfs://workspace/w/.env", false, true, false), WalkDecision::Skip);
    assert_eq!(state.admit_walk_entry(all, "target", true, false, true), WalkDecision::Skip);
    let unignored = WalkControls { hidden: true, gitignore: false };
    assert_eq!(state.admit_walk_entry(unignored, "target", true, false, true), WalkDecision::VisitDirectory);
    assert_eq!(state.admit_walk_entry(unignored, "target", true, false, false), WalkDecision::Skip);
    assert_eq!(state.seen_files.len(), 1);
    assert_eq!(state.seen_directories, vec!["target".to_string()]);
    assert!(hidden_name(b".git"));
    assert!(!hidden_name(b"src"));
    assert!(!hidden_name(b""));
}

#[test]
fn the_innermost_ignore_file_that_speaks_decides() {
    assert!(!ignored_by_stack(&[]));
    assert!(ignored_by_stack(&[IgnoreMatch::Silent, IgnoreMatch::Ignore]));
    assert!(!ignored_by_stack(&[IgnoreMatch::Whitelist, IgnoreMatch::Ignore]));
    assert!(!ignored_by_stack(&[IgnoreMatch::Silent, IgnoreMatch::Silent]));
}

#[test]
fn gitignore_files_that_cannot_be_read_are_reported() {
    assert!(matches!(gitignore_open_step(GitignoreOpen::File), GitignoreStep::Read));
    let missing = ResourceError::new(ErrorCategory::NotFound, "absent");
    assert!(matches!(gitignore_open_step(GitignoreOpen::Failed(missing)), GitignoreStep::KeepParent));
    match gitignore_open_step(GitignoreOpen::NotAFile) {
        GitignoreStep::Diagnose { category, message } => {
            assert_eq!(category, ErrorCategory::UnsupportedProjection);
            assert_eq!(message, "contained .gitignore Resource is not a text file");
        }
        other => panic!("unexpected {other:?}"),
    }
    let denied = ResourceError::new(ErrorCategory::PermissionDenied, "denied");
    match gitignore_open_step(GitignoreOpen::Failed(denied)) {
        GitignoreStep::Diagnose { category, message } => {
            assert_eq!(category, ErrorCategory::PermissionDenied);
            assert_eq!(message, "denied");
        }
        other => panic!("unexpected {other:?}"),
    }
    let cancelled = ResourceError::new(ErrorCategory::Cancelled, "stop");
    assert_eq!(gitignore_read_failure(cancelled).unwrap_err().category, ErrorCategory::Cancelled);
    let long = ResourceError::new(ErrorCategory::LimitExceeded, "x");
    assert_eq!(gitignore_read_failure(long).unwrap().1, "contained .gitignore exceeds the 64 MiB Resource ceiling");
    let io = ResourceError::new(ErrorCategory::SourceUnavailable, "x");
    assert_eq!(gitignore_read_failure(io).unwrap(), (ErrorCategory::SourceUnavailable, "contained .gitignore could not be read".to_string()));
}

#[test]
fn gitignore_lines_become_rules() {
    assert_eq!(gitignore_rule(b"target/\r\n", 2).unwrap(), "target/");
    assert_eq!(gitignore_rule("\u{feff}\u{feff}*.log\n".as_bytes(), 1).unwrap(), "*.log");
    assert_eq!(gitignore_rule("\u{feff}*.log".as_bytes(), 2).unwrap(), "\u{feff}*.log");
    assert_eq!(gitignore_rule(b"a\r", 3).unwrap(), "a");
    assert_eq!(gitignore_rule(b"a\n\n", 3).unwrap(), "a\n");
    assert!(gitignore_rule(&[0xff, b'\n'], 1).is_none());
}

use resourcefs_sources::paths::{gitignore_remaining, gitignore_total, retained_rule_bytes};

#[test]
fn gitignore_reads_stay_within_the_resource_ceiling() {
    assert_eq!(gitignore_remaining(0), 64 * 1024 * 1024);
    assert_eq!(gitignore_remaining(64 * 1024 * 1024 - 1), 1);
    assert_eq!(gitignore_remaining(usize::MAX), 0);
    assert_eq!(gitignore_total(10, 5).unwrap(), 15);
    assert_eq!(gitignore_total(usize::MAX, 1).unwrap_err().message, "contained .gitignore byte count is not representable");
    assert_eq!(retained_rule_bytes(40, 7).unwrap(), 47);
    assert_eq!(retained_rule_bytes(usize::MAX, 7).unwrap_err().message, "contained .gitignore state size is not representable");
}
