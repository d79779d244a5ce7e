use gitlog::labels::{
    committer_label, count_label, is_date_string, lookup_old_path, lookup_path, short_hash, subject_label,
    subject_visible, base_name, details_problem, flat_name, DetailsProblem,
};
use gitlog::gitlog::name_status;
use gitlog::push::{push_commands, push_report, push_targets, PushOptions};

#[test]
fn date_structure() {
    assert!(is_date_string("2026-09-20 17:36:12"));
    assert!(!is_date_string(""));
    assert!(!is_date_string("2026/09/20 17:36:12"));
    assert!(!is_date_string("2026-09-20T17:36:12"));
    assert!(!is_date_string("2026-09-20 17:36"));
    assert!(!is_date_string("abcd-ef-gh ij:kl:mn"));
}

#[test]
fn rename_rows_give_back_both_paths() {
    assert_eq!(lookup_path("b.txt => b2.txt"), "b2.txt");
    assert_eq!(lookup_old_path("b.txt => b2.txt"), "b.txt");
    assert_eq!(lookup_path("plain.txt"), "plain.txt");
    assert_eq!(lookup_old_path(" plain.txt "), "plain.txt");
    assert_eq!(lookup_path("a => b => c"), "c");
    assert_eq!(lookup_old_path("a => b => c"), "a");
}

#[test]
fn count_and_committer_labels() {
    assert_eq!(count_label(Some(12)), "12");
    assert_eq!(count_label(Some(-3)), "-3");
    assert_eq!(count_label(Some(0)), "0");
    assert_eq!(count_label(None), "•");
    assert_eq!(committer_label("Bot <b@b>", "Ann <a@a>"), "*Bot <b@b>");
    assert_eq!(committer_label("Ann <a@a>", "Ann <a@a>"), "Ann <a@a>");
}

#[test]
fn subject_with_branch_tips() {
    let branches = vec!["master".to_string(), "origin/master".to_string()];
    assert_eq!(subject_label(&branches, "msg"), "[master] [origin/master] msg");
    assert_eq!(subject_label(&Vec::new(), "msg"), "msg");
}

#[test]
fn short_hashes() {
    assert_eq!(short_hash("5f5d34f0123456789"), "5f5d34f0");
    assert_eq!(short_hash("abc"), "abc");
    assert_eq!(short_hash("12345678"), "12345678");
    // 8 bytes end inside a character: the whole text
    assert_eq!(short_hash("1234567é9"), "1234567é9");
    assert_eq!(short_hash("123456é9"), "123456é");
}

fn options(all: bool, force: bool, force_with_lease: bool, tags: bool, set_upstream: bool) -> PushOptions {
    PushOptions { all, force, force_with_lease, tags, set_upstream }
}

#[test]
fn push_targets_from_the_remote_list() {
    let remotes = vec!["backup".to_string(), "origin".to_string()];
    assert_eq!(push_targets(&remotes, 0), remotes);
    assert_eq!(push_targets(&remotes, 2), vec!["origin".to_string()]);
    assert!(push_targets(&remotes, 3).is_empty());
    assert!(push_targets(&Vec::new(), 0).is_empty());
}

#[test]
fn push_command_arguments() {
    let origin = vec!["origin".to_string()];
    let plain = push_commands(&origin, &options(false, false, false, false, false), " main ", "");
    assert_eq!(plain, vec![vec!["push", "origin", "main"]]);
    let forced = push_commands(&origin, &options(false, true, false, false, false), "main", "");
    assert_eq!(forced, vec![vec!["push", "--force", "origin", "main"]]);
    let tags = push_commands(&origin, &options(false, false, false, true, false), "", "");
    assert_eq!(tags, vec![vec!["push", "--tags", "origin"]]);
    let upstream = push_commands(&origin, &options(false, false, true, false, true), "main", "dev ");
    assert_eq!(upstream, vec![vec!["push", "--force-with-lease", "origin", "--set-upstream", "main:dev"]]);
    let both = vec!["backup".to_string(), "origin".to_string()];
    let all = push_commands(&both, &options(true, false, false, true, true), "main", "x");
    assert_eq!(all, vec![vec!["push", "--tags", "backup", "--all"], vec!["push", "--tags", "origin", "--all"]]);
}

#[test]
fn push_report_blocks() {
    let both = vec!["backup".to_string(), "origin".to_string()];
    assert_eq!(push_report(&both, &vec![None, None]), None);
    assert_eq!(
        push_report(&both, &vec![Some("rejected".to_string()), None]),
        Some("backup:\nrejected".to_string())
    );
    assert_eq!(
        push_report(&both, &vec![Some("e1".to_string()), Some("e2".to_string())]),
        Some("backup:\ne1\n\norigin:\ne2".to_string())
    );
    // more outcomes than targets: the message alone
    assert_eq!(push_report(&Vec::new(), &vec![Some("e".to_string())]), Some("e".to_string()));
}

#[test]
fn history_filter_ignores_case() {
    assert!(subject_visible("[main] Fix BUG in parser", "bug"));
    assert!(subject_visible("Fix", "FIX"));
    assert!(subject_visible("[Main] x", "main"));
    assert!(subject_visible("Änderung am Parser", "ÄND"));
    assert!(subject_visible("anything", ""));
    assert!(!subject_visible("abc", "abd"));
    assert!(!subject_visible("ab", "abc"));
}

#[test]
fn rebase_fields_are_checked_in_order() {
    let ok = "2026-09-20 17:36:12";
    assert_eq!(details_problem("msg", ok, ok), None);
    assert_eq!(details_problem("  \n", ok, "bad"), Some(DetailsProblem::EmptyMessage));
    assert_eq!(details_problem("msg", "2026-09-20", ok), Some(DetailsProblem::InvalidDate));
    assert_eq!(details_problem("msg", ok, "2026-09-20T17:36:12"), Some(DetailsProblem::InvalidDate));
}

#[test]
fn temporary_copy_names() {
    assert_eq!(base_name("src/bin/main.rs"), "main.rs");
    assert_eq!(base_name("README"), "README");
    assert_eq!(base_name("dir/"), "");
    assert_eq!(flat_name("src/bin/main.rs"), "src-bin-main.rs");
    assert_eq!(flat_name("plain"), "plain");
}

#[test]
fn rename_rows_of_name_status_lead_back_to_both_paths() {
    let rows = name_status("R091\tdocs/old name.md\tdocs/new name.md\n");
    let (path, _, display) = &rows[0];
    assert_eq!(display, "docs/old name.md => docs/new name.md");
    assert_eq!(&lookup_path(display), path);
    assert_eq!(lookup_old_path(display), "docs/old name.md");
}

#[test]
fn brace_renames_of_the_history_lead_to_both_paths() {
    assert_eq!(lookup_path("src/{a.rs => b.rs}"), "src/b.rs");
    assert_eq!(lookup_old_path("src/{a.rs => b.rs}"), "src/a.rs");
    assert_eq!(lookup_old_path("a/{ => b}/c"), "a/c");
    assert_eq!(lookup_path("docs/{x => y}/readme.md"), "docs/y/readme.md");
}
