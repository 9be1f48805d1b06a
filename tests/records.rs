use repolice::reader::{FileTracker, ProbeError, Reader, RepoInfo};
use repolice::status::{classify_code, parse_status, ChangeKind};

fn tracker(label: &str, n: usize) -> FileTracker {
    FileTracker::new(label, n, None)
}

fn record(name: &str, counts: [usize; 4]) -> RepoInfo {
    RepoInfo {
        name: name.to_string(),
        path: format!("/work/{}", name),
        branch: "main".to_string(),
        new_files: tracker("??", counts[0]),
        added_files: tracker("A", counts[1]),
        modified_files: tracker("M", counts[2]),
        deleted_files: tracker("D", counts[3]),
    }
}

#[test]
fn clean_record_has_no_changes() {
    let r = record("a", [0, 0, 0, 0]);
    assert!(!r.has_changes());
    assert_eq!(r.total_changes(), 0);
}

#[test]
fn total_is_sum_of_counts() {
    let r = record("a", [1, 2, 3, 4]);
    assert!(r.has_changes());
    assert_eq!(r.total_changes(), 10);
}

#[test]
fn one_deleted_file_is_a_change() {
    let r = record("a", [0, 0, 0, 1]);
    assert!(r.has_changes());
    assert_eq!(r.total_changes(), 1);
}

#[test]
fn status_code_table() {
    assert_eq!(classify_code('?', '?'), Some(ChangeKind::New));
    assert_eq!(classify_code('A', ' '), Some(ChangeKind::Added));
    assert_eq!(classify_code(' ', 'A'), Some(ChangeKind::Added));
    assert_eq!(classify_code('A', 'M'), Some(ChangeKind::Added));
    assert_eq!(classify_code('M', ' '), Some(ChangeKind::Modified));
    assert_eq!(classify_code(' ', 'M'), Some(ChangeKind::Modified));
    assert_eq!(classify_code('M', 'D'), Some(ChangeKind::Modified));
    assert_eq!(classify_code('D', ' '), Some(ChangeKind::Deleted));
    assert_eq!(classify_code(' ', 'D'), Some(ChangeKind::Deleted));
    assert_eq!(classify_code('R', ' '), None);
    assert_eq!(classify_code('?', ' '), None);
    assert_eq!(classify_code('!', '!'), None);
}

#[test]
fn parse_status_sorts_lines() {
    let text = "?? new.txt\nA  added.rs\n M changed.rs\nMM both.rs\n D gone.rs\nR  a -> b\nx\n?? last";
    let lists = parse_status(text);
    assert_eq!(lists.new, vec!["new.txt".to_string(), "last".to_string()]);
    assert_eq!(lists.added, vec!["added.rs".to_string()]);
    assert_eq!(lists.modified, vec!["changed.rs".to_string(), "both.rs".to_string()]);
    assert_eq!(lists.deleted, vec!["gone.rs".to_string()]);
}

#[test]
fn parse_status_single_new_line() {
    let lists = parse_status("?? only.txt\n");
    assert_eq!(lists.new, vec!["only.txt".to_string()]);
    assert!(lists.added.is_empty());
    assert!(lists.modified.is_empty());
    assert!(lists.deleted.is_empty());
}

#[test]
fn parse_status_empty_text() {
    let lists = parse_status("");
    assert!(lists.new.is_empty() && lists.added.is_empty());
    assert!(lists.modified.is_empty() && lists.deleted.is_empty());
}

#[test]
fn branch_label_strips_heads_prefix() {
    assert_eq!(Reader::branch_label(Some("refs/heads/main")), "main");
    assert_eq!(Reader::branch_label(Some("refs/heads/feature/x")), "feature/x");
    assert_eq!(Reader::branch_label(Some("refs/tags/v1")), "refs/tags/v1");
    assert_eq!(Reader::branch_label(Some("refs/head")), "refs/head");
    assert_eq!(Reader::branch_label(None), "HEAD");
}

#[test]
fn repo_name_is_last_segment() {
    assert_eq!(Reader::repo_name("/home/me/projects/tool"), "tool");
    assert_eq!(Reader::repo_name("tool"), "tool");
}

#[test]
fn repo_name_without_segment_keeps_path() {
    assert_eq!(Reader::repo_name("/home/me/"), "/home/me/");
}

#[test]
fn repo_name_of_nested_and_empty_paths() {
    assert_eq!(Reader::repo_name("./a/b c"), "b c");
    assert_eq!(Reader::repo_name(""), "");
    assert_eq!(Reader::repo_name("/"), "/");
}

#[test]
fn build_repo_info_verbose() {
    let r = Reader::build_repo_info("app", "/src/app", Some("refs/heads/dev"), "?? a\n?? b\n M c\n", true);
    assert_eq!(r.name, "app");
    assert_eq!(r.path, "/src/app");
    assert_eq!(r.branch, "dev");
    assert_eq!(r.new_files.status, "New");
    assert_eq!(r.new_files.amount, 2);
    assert_eq!(r.new_files.files, Some(vec!["a".to_string(), "b".to_string()]));
    assert_eq!(r.modified_files.status, "Modified");
    assert_eq!(r.modified_files.amount, 1);
    assert_eq!(r.added_files.files, Some(vec![]));
    assert_eq!(r.deleted_files.status, "Deleted");
    assert_eq!(r.total_changes(), 3);
}

#[test]
fn build_repo_info_counts_only() {
    let r = Reader::build_repo_info("app", "/src/app", None, "A  x\nD  y\n", false);
    assert_eq!(r.branch, "HEAD");
    assert_eq!(r.new_files.status, "??");
    assert_eq!(r.added_files.status, "A");
    assert_eq!(r.added_files.amount, 1);
    assert_eq!(r.added_files.files, None);
    assert_eq!(r.deleted_files.amount, 1);
    assert_eq!(r.modified_files.status, "M");
    assert_eq!(r.deleted_files.status, "D");
}

#[test]
fn find_repo_info_names_by_path() {
    let r = Reader::find_repo_info("/src/widgets", Some("refs/heads/main"), "", false);
    assert_eq!(r.name, "widgets");
    assert!(!r.has_changes());
}

#[test]
fn failed_probe_leaves_others() {
    let outcomes = vec![
        Ok(record("alpha", [1, 0, 0, 0])),
        Err(ProbeError::new("/work/vanished")),
        Ok(record("beta", [0, 0, 0, 0])),
    ];
    let c = Reader::collect_repos(outcomes);
    let names: Vec<&str> = c.repos.iter().map(|r| r.name.as_str()).collect();
    assert_eq!(names, vec!["alpha", "beta"]);
    assert_eq!(c.failed, vec!["/work/vanished".to_string()]);
}

#[test]
fn collect_with_no_outcomes() {
    let c = Reader::collect_repos(vec![]);
    assert!(c.repos.is_empty());
    assert!(c.failed.is_empty());
}
