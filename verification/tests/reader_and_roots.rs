use resourcefs_sources::error::ErrorCategory;
use resourcefs_sources::http::{basic_credential_value, reader_mode_source};
use resourcefs_sources::markdown::{extract_markdown_for_test, Extractor, HtmlToken, RawKind};
use resourcefs_sources::roots::{
    line_is_selected, BackingPathVisibility, RootAuthority, RootEntry, RootRefreshOutcome,
};

fn start(name: &str) -> HtmlToken {
    HtmlToken::StartTag { name: name.to_string(), self_closing: false, href: None }
}

fn link(href: &str) -> HtmlToken {
    HtmlToken::StartTag { name: "a".to_string(), self_closing: false, href: Some(href.to_string()) }
}

fn end(name: &str) -> HtmlToken {
    HtmlToken::EndTag { name: name.to_string() }
}

fn text(t: &str) -> HtmlToken {
    HtmlToken::Text(t.to_string())
}

fn entry(id: &str, uri: &str) -> RootEntry {
    RootEntry { id: id.to_string(), uri: uri.to_string() }
}

#[test]
fn reader_mode_renders_the_fixed_tag_subset() {
    let tokens = vec![
        start("h1"),
        text("Title"),
        end("h1"),
        start("p"),
        text("Hello "),
        link(" https://x "),
        text("world"),
        end("a"),
        text("."),
        end("p"),
        start("ul"),
        start("li"),
        start("p"),
        text("one"),
        end("p"),
        end("li"),
        start("li"),
        text("two"),
        end("li"),
        end("ul"),
        start("ol"),
        start("li"),
        start("p"),
        text("a"),
        end("p"),
        end("li"),
        start("li"),
        text("b"),
        end("li"),
        end("ol"),
        start("script"),
        text("var x = '<p>';"),
        end("script"),
        start("pre"),
        text("  code\n"),
        end("pre"),
    ];
    assert_eq!(
        extract_markdown_for_test(&tokens).expect("admissible"),
        "# Title\n\nHello [world](https://x).\n\n- one\n\n- two\n\n1. a\n\n2. b\n\n```\n\n  code\n\n```\n"
    );
}

#[test]
fn tables_links_without_text_and_white_space() {
    let tokens = vec![
        start("table"),
        start("tr"),
        start("td"),
        text(" a "),
        end("td"),
        start("td"),
        text("b"),
        end("td"),
        end("tr"),
        end("table"),
        start("p"),
        text("  x \n\t y  "),
        link("u"),
        end("a"),
        end("p"),
    ];
    assert_eq!(
        extract_markdown_for_test(&tokens).expect("admissible"),
        "| a | b |\n\nx y [u](u)\n"
    );
    assert_eq!(extract_markdown_for_test(&[]).expect("empty"), "\n");
}

#[test]
fn raw_text_elements_enter_raw_states_even_when_self_closing() {
    let mut extractor = Extractor::new();
    let script = HtmlToken::StartTag { name: "script".to_string(), self_closing: true, href: None };
    assert_eq!(extractor.process(&script), Some(RawKind::ScriptData));
    assert_eq!(extractor.skip, 1);
    assert_eq!(extractor.process(&text("hidden")), None);
    assert_eq!(extractor.process(&end("script")), None);
    assert_eq!(extractor.process(&start("style")), Some(RawKind::Rawtext));
    assert_eq!(extractor.process(&end("style")), None);
    let svg = HtmlToken::StartTag { name: "svg".to_string(), self_closing: true, href: None };
    assert_eq!(extractor.process(&svg), None);
    assert_eq!(extractor.skip, 0);
    assert_eq!(extractor.process(&text("shown")), None);
    assert_eq!(extractor.finish(), "shown\n");
}

#[test]
fn a_link_split_inside_a_character_is_not_admitted() {
    let mut extractor = Extractor::new();
    for token in [text("a"), link("x"), start("p"), text("\u{e9}")] {
        assert!(extractor.admits_token(&token));
        extractor.process(&token);
    }
    assert!(!extractor.admits_token(&end("a")));
    assert!(extract_markdown_for_test(&[text("a"), link("x"), start("p"), text("\u{e9}"), end("a")]).is_none());
}

#[test]
fn a_refresh_applies_a_new_root_set() {
    let mut authority = RootAuthority::new(vec![entry("r1", "file:///a/")]);
    let refresh = authority.begin_client_root_refresh();
    assert_eq!(refresh.epoch(), 1);
    assert!(authority.active_generation().is_err());
    match authority.complete_client_root_refresh(refresh, false, Ok(vec![entry("r2", "file:///b/")]), false) {
        Ok(RootRefreshOutcome::Applied { generation, removed, active }) => {
            assert_eq!(generation, 2);
            assert_eq!(removed, vec!["r1".to_string()]);
            assert_eq!(active, vec!["r2".to_string()]);
        },
        other => panic!("unexpected {other:?}"),
    }
    assert_eq!(authority.active_generation().ok(), Some(2));
    assert!(authority.validate_read_delivery(2, &entry("r9", "file:///z/")).is_ok());
    assert!(authority.validate_read_delivery(1, &entry("r2", "file:///b/")).is_ok());
    assert_eq!(
        authority.validate_read_delivery(1, &entry("r1", "file:///a/")).expect_err("removed root").category,
        ErrorCategory::InvalidReference
    );
}

#[test]
fn a_superseded_refresh_changes_nothing() {
    let mut authority = RootAuthority::new(vec![entry("r1", "file:///a/")]);
    let first = authority.begin_client_root_refresh();
    let second = authority.begin_client_root_refresh();
    assert_eq!(second.epoch(), 2);
    assert!(matches!(
        authority.complete_client_root_refresh(first, false, Ok(vec![entry("r2", "file:///b/")]), false),
        Ok(RootRefreshOutcome::Superseded)
    ));
    assert!(matches!(
        authority.complete_client_root_refresh(second, false, Ok(vec![entry("r1", "file:///a/")]), false),
        Ok(RootRefreshOutcome::Unchanged { generation: 1 })
    ));
}

#[test]
fn a_root_identifier_keeps_its_uri() {
    let mut authority = RootAuthority::new(vec![entry("r1", "file:///a/")]);
    let refresh = authority.begin_client_root_refresh();
    let error = authority
        .complete_client_root_refresh(refresh, false, Ok(vec![entry("r1", "file:///other/")]), false)
        .expect_err("identity conflict");
    assert_eq!(error.category, ErrorCategory::InvalidReference);
    assert_eq!(error.message, "Workspace Root identifier maps to a different canonical URI");
    assert_eq!(
        authority.active_generation().expect_err("disabled").message,
        "Workspace Root authority is disabled"
    );
    let late = authority.begin_client_root_refresh();
    let expired = authority
        .complete_client_root_refresh(late, true, Ok(vec![]), false)
        .expect_err("expired");
    assert_eq!(expired.message, "Workspace Root acquisition exceeded 5 seconds");
}

#[test]
fn selections_choose_lines() {
    assert!(line_is_selected(7, None));
    let ranges = [(1, Some(3)), (10, None)];
    assert!(line_is_selected(2, Some(&ranges)));
    assert!(!line_is_selected(5, Some(&ranges)));
    assert!(line_is_selected(1_000, Some(&ranges)));
    assert_eq!(BackingPathVisibility::default(), BackingPathVisibility::Hidden);
}

#[test]
fn basic_credentials_and_reader_sources() {
    assert_eq!(basic_credential_value("user", "secret").expect("fits"), "Basic dXNlcjpzZWNyZXQ=");
    assert_eq!(
        basic_credential_value("us:er", "secret").expect_err("colon").category,
        ErrorCategory::InvalidReference
    );
    assert_eq!(
        reader_mode_source(Some("text/html; charset=utf-8"), b"<p>x</p>").expect("html"),
        "<p>x</p>"
    );
    assert!(reader_mode_source(Some("application/json"), b"{}").is_err());
    assert!(reader_mode_source(None, &[0xff, 0xfe]).is_err());
}

use resourcefs_sources::workspace::WorkspaceDiscoveryBudget;

#[test]
fn pcre2_subjects_have_a_cumulative_ceiling() {
    let mut budget = WorkspaceDiscoveryBudget::new();
    assert!(budget.charge_match(false).is_ok());
    assert_eq!(budget.pcre2_subjects, 0);
    for _ in 0..10_000 {
        budget.charge_match(true).unwrap();
    }
    assert!(!budget.is_exhausted());
    let refused = budget.charge_match(true).unwrap_err();
    assert_eq!(refused.category, ErrorCategory::LimitExceeded);
    assert_eq!(refused.message, "Workspace search exceeds the 10,000-subject cumulative PCRE2 work ceiling");
    assert!(budget.is_exhausted());
    assert_eq!(budget.pcre2_subjects, 10_001);
}

#[test]
fn diagnostics_charge_their_escaped_rendering() {
    let mut budget = WorkspaceDiscoveryBudget::new();
    // 5 (reference) + 9 (category) + 6 (message) + 2 (escapes) + 4 (framing).
    budget.charge_diagnostic(Some(5), "not_found", "a\tb\\cd").unwrap();
    assert_eq!(budget.diagnostics, 1);
    assert_eq!(budget.result_bytes, 26);
    // No reference counts one byte.
    budget.charge_diagnostic(None, "x", "").unwrap();
    assert_eq!(budget.result_bytes, 32);
    budget.diagnostics = 100_000;
    let refused = budget.charge_diagnostic(None, "x", "").unwrap_err();
    assert_eq!(refused.message, "Workspace discovery exceeds the 100,000-diagnostic result ceiling");
    assert!(budget.is_exhausted());
    let mut full = WorkspaceDiscoveryBudget::new();
    full.result_bytes = 64 * 1024 * 1024 - 5;
    let refused = full.charge_diagnostic(None, "x", "").unwrap_err();
    assert_eq!(refused.message, "Workspace discovery complete result exceeds the 64 MiB Resource ceiling");
}

use resourcefs_sources::roots::{client_root_id, client_root_uri};

#[test]
fn client_roots_are_local_file_uris() {
    assert_eq!(client_root_uri("file:///tmp/work").unwrap().path, "/tmp/work");
    for (uri, message) in [
        ("not a uri", "client Workspace Root URI is invalid"),
        ("https://example.com/work", "client Workspace Root must be a local file URI"),
        ("file:///tmp/work?x=1", "client Workspace Root must be a local file URI"),
        ("file:///tmp/work#top", "client Workspace Root must be a local file URI"),
    ] {
        let error = client_root_uri(uri).unwrap_err();
        assert_eq!(error.category, ErrorCategory::InvalidReference);
        assert_eq!(error.message, message);
    }
}

#[test]
fn client_root_ids_hash_the_canonical_uri() {
    assert_eq!(client_root_id(""), "client-e3b0c44298fc1c149afbf4c8996fb92427ae41e4649b934ca495991b7852b855");
    assert_eq!(client_root_id("abc"), "client-ba7816bf8f01cfea414140de5dae2223b00361a396177a9cb410ff61f20015ad");
    assert_ne!(client_root_id("file:///a/"), client_root_id("file:///b/"));
}

use resourcefs_sources::workspace::{
    retained_names_state_bytes, retained_path_state_bytes, workspace_glob_required, workspace_match_path,
    workspace_root_identity,
};

#[test]
fn discovered_references_are_matched_below_their_root() {
    assert_eq!(workspace_root_identity("main"), "rfs://workspace/main/");
    assert_eq!(workspace_match_path("rfs://workspace/main/src/lib.rs", "main").unwrap(), "src/lib.rs");
    let wrong = workspace_match_path("rfs://workspace/other/src/lib.rs", "main").unwrap_err();
    assert_eq!(wrong.category, ErrorCategory::InvalidReference);
    assert_eq!(wrong.message, "Workspace discovery produced an identity under the wrong root");
    assert!(workspace_match_path("rfs://workspace/main", "main").is_err());
    let glob = workspace_glob_required();
    assert_eq!(glob.category, ErrorCategory::UnsupportedProjection);
    assert_eq!(glob.message, "filesystem Source Adapter requires a relative or canonical Workspace glob");
}

#[test]
fn retained_paths_and_names_count_their_slots() {
    let path_slot = std::mem::size_of::<String>();
    assert_eq!(retained_path_state_bytes(10, path_slot, 4).unwrap(), 10 + path_slot + 4 + 32);
    let overflow = retained_path_state_bytes(usize::MAX, path_slot, 0).unwrap_err();
    assert_eq!(overflow.message, "Workspace retained path size is not representable");
    let name_slot = std::mem::size_of::<Vec<u8>>();
    assert_eq!(retained_names_state_bytes(&[3, 5], 4, name_slot).unwrap(), 4 * name_slot + 8);
    assert_eq!(retained_names_state_bytes(&[], 0, name_slot).unwrap(), 0);
    let too_many = retained_names_state_bytes(&[1], usize::MAX, 2).unwrap_err();
    assert_eq!(too_many.category, ErrorCategory::LimitExceeded);
    assert_eq!(too_many.message, "Workspace directory name state size is not representable");
    assert!(retained_names_state_bytes(&[usize::MAX, 1], 0, 8).is_err());
}

#[test]
fn dropped_elements_render_nothing() {
    let rest = vec![start("p"), text("kept"), end("p")];
    for name in ["script", "style", "svg", "head", "noscript", "template"] {
        let mut tokens = vec![start(name), text("hidden text"), text(" more"), end(name)];
        tokens.extend(rest.iter().cloned());
        assert_eq!(extract_markdown_for_test(&tokens), extract_markdown_for_test(&rest));
        let bare = vec![start(name), end(name)];
        assert_eq!(extract_markdown_for_test(&bare), extract_markdown_for_test(&[]));
    }
    assert_eq!(extract_markdown_for_test(&rest).unwrap(), "kept\n");
    assert_eq!(extract_markdown_for_test(&[]).unwrap(), "\n");
}
