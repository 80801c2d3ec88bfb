//! Tests for the marker-delimited section editor: merging the generated
//! block into hook content, cutting it back out, and deciding when a hook
//! file is effectively empty.

use git_pair::PairError;
use git_pair::section::is_effectively_empty;
use git_pair::section::merge_git_pair_section;
use git_pair::section::remove_git_pair_section;

#[test]
fn test_is_effectively_empty() {
    assert!(is_effectively_empty(""));
    assert!(is_effectively_empty("   \n  \t  "));
    assert!(is_effectively_empty("#!/bin/sh"));
    assert!(is_effectively_empty("#!/bin/sh\n# comment"));
    assert!(is_effectively_empty("#!/bin/sh\n\n# comment\n   "));
    assert!(!is_effectively_empty("#!/bin/sh\necho 'something'"));
    assert!(!is_effectively_empty("echo 'test'"));
}

#[test]
fn test_merge_git_pair_section_new_file() {
    let existing = "";
    let git_pair_section = "# BEGIN git-pair\necho 'git-pair'\n# END git-pair";

    let result = merge_git_pair_section(existing, git_pair_section).unwrap();
    assert!(result.starts_with("#!/bin/sh\n"));
    assert!(result.contains("# BEGIN git-pair"));
    assert!(result.contains("# END git-pair"));
}

#[test]
fn test_merge_git_pair_section_existing_content() {
    let existing = "#!/bin/sh\necho 'existing hook'";
    let git_pair_section = "# BEGIN git-pair\necho 'git-pair'\n# END git-pair";

    let result = merge_git_pair_section(existing, git_pair_section).unwrap();
    assert!(result.contains("echo 'existing hook'"));
    assert!(result.contains("# BEGIN git-pair"));
    assert!(result.ends_with("# END git-pair"));
}

#[test]
fn test_merge_git_pair_section_replace_existing() {
    let existing =
        "#!/bin/sh\necho 'before'\n# BEGIN git-pair\necho 'old'\n# END git-pair\necho 'after'";
    let git_pair_section = "# BEGIN git-pair\necho 'new'\n# END git-pair";

    let result = merge_git_pair_section(existing, git_pair_section).unwrap();
    assert!(result.contains("echo 'before'"));
    assert!(result.contains("echo 'new'"));
    assert!(result.contains("echo 'after'"));
    assert!(!result.contains("echo 'old'"));
}

#[test]
fn test_remove_git_pair_section_success() {
    let content = "#!/bin/sh\necho 'before'\n# BEGIN git-pair\necho 'git-pair'\n# END git-pair\necho 'after'";

    let result = remove_git_pair_section(content).unwrap().unwrap();
    assert!(result.contains("echo 'before'"));
    assert!(result.contains("echo 'after'"));
    assert!(!result.contains("git-pair"));
    assert!(!result.contains("BEGIN"));
}

#[test]
fn test_remove_git_pair_section_not_found() {
    let content = "#!/bin/sh\necho 'no git-pair here'";

    let result = remove_git_pair_section(content).unwrap();
    assert!(result.is_none());
}

#[test]
fn test_remove_git_pair_section_only_content() {
    let content = "#!/bin/sh\n# BEGIN git-pair\necho 'git-pair'\n# END git-pair";

    let result = remove_git_pair_section(content).unwrap().unwrap();
    assert_eq!(result.trim(), "#!/bin/sh");
}

#[test]
fn merge_keeps_existing_text_before_section() {
    let existing = "#!/bin/sh\necho hi";
    let section = "# BEGIN git-pair\necho p\n# END git-pair";

    let result = merge_git_pair_section(existing, section).unwrap();
    let hi = result.find("echo hi").unwrap();
    let begin = result.find("# BEGIN git-pair").unwrap();
    assert!(hi < begin);
    assert!(result.ends_with("# END git-pair"));
    assert_eq!(result, "#!/bin/sh\necho hi\n\n# BEGIN git-pair\necho p\n# END git-pair");
}

#[test]
fn merge_then_strip_returns_trimmed_original() {
    let existing = "#!/bin/sh\necho 'existing hook'  \n";
    let section = "# BEGIN git-pair\necho 'git-pair'\n# END git-pair";

    let merged = merge_git_pair_section(existing, section).unwrap();
    let stripped = remove_git_pair_section(&merged).unwrap().unwrap();
    assert_eq!(stripped, "#!/bin/sh\necho 'existing hook'");
}

#[test]
fn merge_twice_leaves_one_marker_pair() {
    let existing = "#!/bin/sh\necho 'original'";
    let section = "# BEGIN git-pair\necho 'git-pair'\n# END git-pair";

    let once = merge_git_pair_section(existing, section).unwrap();
    let twice = merge_git_pair_section(&once, section).unwrap();
    assert_eq!(twice.matches("# BEGIN git-pair").count(), 1);
    assert_eq!(twice.matches("# END git-pair").count(), 1);
    assert!(twice.contains("echo 'original'"));
}

#[test]
fn merge_missing_end_marker_is_malformed() {
    let broken = "#!/bin/sh\n# BEGIN git-pair\necho 'orphan'";
    let section = "# BEGIN git-pair\necho 'new'\n# END git-pair";

    assert_eq!(merge_git_pair_section(broken, section), Err(PairError::MalformedHook));
}

#[test]
fn remove_missing_end_marker_is_malformed() {
    let broken = "#!/bin/sh\n# BEGIN git-pair\necho 'orphan'";

    assert_eq!(remove_git_pair_section(broken), Err(PairError::MalformedHook));
}

#[test]
fn merge_blank_content_counts_as_new_file() {
    let section = "# BEGIN git-pair\necho 'git-pair'\n# END git-pair";

    let result = merge_git_pair_section("  \n\t", section).unwrap();
    assert_eq!(result, format!("#!/bin/sh\n{}", section));
}

#[test]
fn merge_replace_at_file_start_adds_nothing() {
    let existing = "# BEGIN git-pair\necho 'old'\n# END git-pair";
    let section = "# BEGIN git-pair\necho 'new'\n# END git-pair";

    let result = merge_git_pair_section(existing, section).unwrap();
    assert_eq!(result, section);
}

#[test]
fn merge_then_strip_on_section_only_file_returns_empty() {
    let existing = "# BEGIN git-pair\n# END git-pair";
    let section = "# BEGIN git-pair\necho 'p'\n# END git-pair";

    let merged = merge_git_pair_section(existing, section).unwrap();
    assert_eq!(merged, section);
    let stripped = remove_git_pair_section(&merged).unwrap().unwrap();
    assert_eq!(stripped, "");
}
