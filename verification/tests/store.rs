//! Tests for the co-author ledger, the alias roster, the branch-name
//! handling, and the install/remove decisions built on top of the editor.

use git_pair::PairError;
use git_pair::branch::get_branch_config_file;
use git_pair::branch::sanitize_branch_name;
use git_pair::installer::HookPlan;
use git_pair::installer::HookRemoval;
use git_pair::installer::hook_section;
use git_pair::installer::install_hook_content;
use git_pair::installer::plan_hook_update;
use git_pair::installer::remove_hook_content;
use git_pair::ledger::AddOutcome;
use git_pair::ledger::add_coauthor_content;
use git_pair::ledger::extract_coauthors;
use git_pair::ledger::ledger_header;
use git_pair::ledger::make_coauthor_line;
use git_pair::ledger::matches_coauthor;
use git_pair::ledger::remove_coauthor_content;
use git_pair::roster::RosterEntry;
use git_pair::roster::add_coauthor_from_global;
use git_pair::roster::add_global_entry;
use git_pair::roster::find_alias;
use git_pair::roster::parse_roster;
use git_pair::roster::roster_header;
use git_pair::names::split_full_name;

fn added(outcome: AddOutcome) -> String {
    match outcome {
        AddOutcome::Added(content) => content,
        AddOutcome::AlreadyExists => panic!("expected a fresh add"),
    }
}

#[test]
fn coauthor_line_exact_value() {
    let line = make_coauthor_line("John", "Doe", "john.doe@example.com");
    assert_eq!(line, "Co-authored-by: John Doe <john.doe@example.com>");
}

#[test]
fn ledger_header_exact_value() {
    let header = ledger_header("main");
    assert_eq!(
        header,
        "# git-pair configuration file for branch 'main'\n# Co-authors will be listed here\n"
    );
}

#[test]
fn add_then_list_one_record() {
    let header = ledger_header("feature/x");
    let content = added(add_coauthor_content(&header, "Jane", "Smith", "jane@x.com"));
    let records = extract_coauthors(&content);
    assert_eq!(records, vec!["Co-authored-by: Jane Smith <jane@x.com>".to_string()]);
}

#[test]
fn add_duplicate_reports_already_exists() {
    let header = ledger_header("main");
    let content = added(add_coauthor_content(&header, "John", "Doe", "john.doe@example.com"));
    let again = add_coauthor_content(&content, "John", "Doe", "john.doe@example.com");
    assert!(matches!(again, AddOutcome::AlreadyExists));
    assert_eq!(extract_coauthors(&content).len(), 1);
}

#[test]
fn remove_by_name_keeps_others() {
    let header = ledger_header("main");
    let one = added(add_coauthor_content(&header, "John", "Doe", "john.doe@example.com"));
    let two = added(add_coauthor_content(&one, "Jane", "Smith", "jane.smith@example.com"));

    let removed = remove_coauthor_content(&two, "main", "John Doe", &Vec::new()).unwrap();
    assert_eq!(removed.removed, 1);
    let records = extract_coauthors(&removed.content);
    assert_eq!(records, vec!["Co-authored-by: Jane Smith <jane.smith@example.com>".to_string()]);
}

#[test]
fn remove_by_email_substring_removes_exactly_matching() {
    let header = ledger_header("main");
    let one = added(add_coauthor_content(&header, "John", "Doe", "john.doe@example.com"));
    let two = added(add_coauthor_content(&one, "Jane", "Smith", "jane.smith@example.com"));

    let removed = remove_coauthor_content(&two, "main", "jane.smith@example.com", &Vec::new())
        .unwrap();
    assert_eq!(removed.removed, 1);
    let records = extract_coauthors(&removed.content);
    assert_eq!(records.len(), 1);
    assert!(records[0].contains("John Doe"));
    assert!(!records[0].contains("Jane Smith"));
}

#[test]
fn remove_is_case_insensitive_on_names() {
    let header = ledger_header("main");
    let content = added(add_coauthor_content(&header, "John", "Doe", "john.doe@example.com"));

    let removed = remove_coauthor_content(&content, "main", "john doe", &Vec::new()).unwrap();
    assert_eq!(removed.removed, 1);
    assert!(extract_coauthors(&removed.content).is_empty());
}

#[test]
fn remove_unknown_identifier_is_not_found() {
    let header = ledger_header("main");
    let content = added(add_coauthor_content(&header, "John", "Doe", "john.doe@example.com"));

    let result = remove_coauthor_content(&content, "main", "Jane Smith", &Vec::new());
    assert_eq!(result.err(), Some(PairError::NotFound));
}

#[test]
fn remove_by_alias_resolves_through_roster() {
    let roster = vec![
        RosterEntry {
            alias: "alice".to_string(),
            name: "Alice Johnson".to_string(),
            email: "alice@example.com".to_string(),
        },
        RosterEntry {
            alias: "bob".to_string(),
            name: "Bob Wilson".to_string(),
            email: "bob@example.com".to_string(),
        },
    ];
    let header = ledger_header("main");
    let one = added(add_coauthor_content(&header, "Alice", "Johnson", "alice@example.com"));
    let two = added(add_coauthor_content(&one, "Bob", "Wilson", "bob@example.com"));

    let removed = remove_coauthor_content(&two, "main", "alice", &roster).unwrap();
    assert_eq!(removed.removed, 1);
    let records = extract_coauthors(&removed.content);
    assert_eq!(records.len(), 1);
    assert!(records[0].contains("Bob Wilson"));
}

#[test]
fn matches_coauthor_cases() {
    let line = "Co-authored-by: John Doe <john.doe@example.com>";
    assert!(matches_coauthor(line, "john doe"));
    assert!(matches_coauthor(line, "John Doe"));
    assert!(matches_coauthor(line, "john.doe@example.com"));
    assert!(matches_coauthor(line, "doe@example"));
    assert!(!matches_coauthor(line, "jane"));
}

#[test]
fn matches_coauthor_folds_unicode_case() {
    let line = "Co-authored-by: JOS\u{c9} GARC\u{cd}A <jose@example.com>";
    assert!(matches_coauthor(line, "jos\u{e9} garc\u{ed}a"));
    assert!(!matches_coauthor(line, "miguel"));
}

#[test]
fn parse_roster_skips_comments_and_blanks() {
    let content = "# Global git-pair roster\n# Format: alias|name|email\n\nalice|Alice Johnson|alice@example.com\nbroken-line\nbob|Bob Wilson|bob@example.com\n";
    let roster = parse_roster(content);
    assert_eq!(roster.len(), 2);
    assert_eq!(roster[0].alias, "alice");
    assert_eq!(roster[0].name, "Alice Johnson");
    assert_eq!(roster[0].email, "alice@example.com");
    assert_eq!(roster[1].alias, "bob");
}

#[test]
fn find_alias_picks_first_exact_match() {
    let content = "alice|Alice Johnson|alice@example.com\nbob|Bob Wilson|bob@example.com\n";
    let roster = parse_roster(content);
    assert_eq!(find_alias(&roster, "bob"), Some(1));
    assert_eq!(find_alias(&roster, "ali"), None);
}

#[test]
fn add_global_entry_appends_and_rejects_duplicates() {
    let content = roster_header();
    let grown = add_global_entry(&content, "alice", "Alice Johnson", "alice@example.com").unwrap();
    assert!(grown.ends_with("alice|Alice Johnson|alice@example.com\n"));

    let again = add_global_entry(&grown, "alice", "Alice Smith", "alice.smith@example.com");
    assert_eq!(again, Err(PairError::AlreadyExists));
}

#[test]
fn add_from_global_splits_the_name() {
    let roster = parse_roster("bob|Bob Wilson|bob@example.com\n");
    let header = ledger_header("main");
    let outcome = add_coauthor_from_global(&roster, "bob", &header).unwrap();
    let content = added(outcome);
    let records = extract_coauthors(&content);
    assert_eq!(records, vec!["Co-authored-by: Bob Wilson <bob@example.com>".to_string()]);
}

#[test]
fn add_from_global_unknown_alias_is_not_found() {
    let roster = parse_roster("bob|Bob Wilson|bob@example.com\n");
    let header = ledger_header("main");
    let result = add_coauthor_from_global(&roster, "charlie", &header);
    assert_eq!(result.err(), Some(PairError::NotFound));
}

#[test]
fn split_full_name_variants() {
    assert_eq!(split_full_name("Alice Johnson"), ("Alice".to_string(), "Johnson".to_string()));
    assert_eq!(
        split_full_name("Anna Maria van Beek"),
        ("Anna".to_string(), "Maria van Beek".to_string())
    );
    assert_eq!(split_full_name("Plato"), ("Plato".to_string(), "".to_string()));
    assert_eq!(split_full_name("  Alice   Johnson "), ("Alice".to_string(), "Johnson".to_string()));
}

#[test]
fn sanitize_branch_name_replaces_path_characters() {
    assert_eq!(sanitize_branch_name("feature/x"), "feature_x");
    assert_eq!(sanitize_branch_name("a\\b:c"), "a_b_c");
    assert_eq!(sanitize_branch_name("main"), "main");
}

#[test]
fn branch_config_file_path() {
    assert_eq!(get_branch_config_file("feature/x"), ".git/git-pair/config-feature_x");
}

#[test]
fn install_into_empty_hook_has_both_markers() {
    let installed = install_hook_content("").unwrap();
    assert!(installed.starts_with("#!/bin/sh\n"));
    assert_eq!(installed.matches("# BEGIN git-pair").count(), 1);
    assert_eq!(installed.matches("# END git-pair").count(), 1);
    assert!(installed.contains("grep '^Co-authored-by:'"));
    assert!(installed.contains("CONFIG_FILE"));
}

#[test]
fn install_preserves_foreign_hook_content() {
    let installed = install_hook_content("#!/bin/sh\necho 'existing hook logic'").unwrap();
    assert!(installed.contains("echo 'existing hook logic'"));

    let reinstalled = install_hook_content(&installed).unwrap();
    assert!(reinstalled.contains("echo 'existing hook logic'"));
    assert_eq!(reinstalled.matches("# BEGIN git-pair").count(), 1);
    assert_eq!(reinstalled.matches("# END git-pair").count(), 1);
}

#[test]
fn install_on_malformed_hook_fails_closed() {
    let broken = "#!/bin/sh\n# BEGIN git-pair\necho 'orphan'";
    assert_eq!(install_hook_content(broken).err(), Some(PairError::MalformedHook));
    assert_eq!(remove_hook_content(broken).err(), Some(PairError::MalformedHook));
}

#[test]
fn remove_hook_deletes_file_when_only_ours() {
    let installed = install_hook_content("").unwrap();
    let decision = remove_hook_content(&installed).unwrap();
    assert!(matches!(decision, HookRemoval::DeleteFile));
}

#[test]
fn remove_hook_keeps_foreign_content() {
    let installed = install_hook_content("#!/bin/sh\necho 'existing hook logic'").unwrap();
    let decision = remove_hook_content(&installed).unwrap();
    match decision {
        HookRemoval::WriteBack(content) => {
            assert!(content.contains("echo 'existing hook logic'"));
            assert!(!content.contains("git-pair"));
        },
        _ => panic!("expected the foreign content to be written back"),
    }
}

#[test]
fn remove_hook_without_section_is_a_no_op() {
    let decision = remove_hook_content("#!/bin/sh\necho 'mine'").unwrap();
    assert!(matches!(decision, HookRemoval::NoSection));
}

#[test]
fn hook_plan_follows_record_count() {
    let header = ledger_header("main");
    assert!(matches!(plan_hook_update(&header), HookPlan::Remove));
    let content = added(add_coauthor_content(&header, "John", "Doe", "john@example.com"));
    assert!(matches!(plan_hook_update(&content), HookPlan::Install));
}

#[test]
fn hook_section_is_marker_delimited() {
    let section = hook_section();
    assert!(section.starts_with("# BEGIN git-pair\n"));
    assert!(section.ends_with("# END git-pair"));
    assert_eq!(section.matches("# BEGIN git-pair").count(), 1);
    assert_eq!(section.matches("# END git-pair").count(), 1);
}

#[test]
fn clear_resets_ledger_to_header_only() {
    let header = ledger_header("main");
    let content = added(add_coauthor_content(&header, "John", "Doe", "john@example.com"));
    assert_eq!(extract_coauthors(&content).len(), 1);
    let cleared = ledger_header("main");
    assert!(extract_coauthors(&cleared).is_empty());
    assert!(matches!(plan_hook_update(&cleared), HookPlan::Remove));
}
