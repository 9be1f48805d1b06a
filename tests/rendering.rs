use repolice::layout::{calculate_repo_height, repo_lines, row_height, visible_rows};
use repolice::order::sort_records;
use repolice::printer::Printer;
use repolice::reader::{FileTracker, Reader, RepoInfo};
use repolice::tui::{rows_for, App, Event};

fn record(name: &str, counts: [usize; 4]) -> RepoInfo {
    RepoInfo {
        name: name.to_string(),
        path: format!("/p/{}", name),
        branch: "main".to_string(),
        new_files: FileTracker::new("??", counts[0], None),
        added_files: FileTracker::new("A", counts[1], None),
        modified_files: FileTracker::new("M", counts[2], None),
        deleted_files: FileTracker::new("D", counts[3], None),
    }
}

fn two_repos() -> Vec<RepoInfo> {
    let a = Reader::build_repo_info("A", "/root/A", Some("refs/heads/main"), "?? x.txt\n?? y.txt\n", false);
    let b = Reader::build_repo_info("B", "/root/B", Some("refs/heads/dev"), "", false);
    sort_records(vec![b, a])
}

#[test]
fn scenario_new_files_and_clean_repo() {
    let repos = two_repos();
    assert_eq!(repos[0].name, "A");
    assert_eq!(repos[1].name, "B");
    assert_eq!(Printer::compact_summary(&repos[0]), "?2 +0 ~0 -0");
    let text = Printer::format_repos(&repos, false);
    assert_eq!(text, "| A: [main]\n| ?2 +0 ~0 -0\n| B: [dev]\nNothing new!\n");
    assert_eq!(repo_lines(&repos[1], false), vec!["B", "[dev]", "Nothing new here!"]);
    assert_eq!(repo_lines(&repos[0], false), vec!["A", "[main]", "?2 +0 ~0 -0"]);
}

#[test]
fn printing_twice_gives_same_text() {
    let repos = two_repos();
    assert_eq!(Printer::format_repos(&repos, true), Printer::format_repos(&repos, true));
    assert_eq!(Printer::format_repos(&repos, false), Printer::format_repos(&repos, false));
}

#[test]
fn verbose_print_lists_files() {
    let r = Reader::build_repo_info("svc", "/w/svc", Some("refs/heads/main"), "?? a\n M b\n M c\n", true);
    let mut out = String::new();
    Printer::format_repo(&mut out, &r, true);
    assert_eq!(out, "| svc: [main]\nNew\n| _ a\nModified\n| _ b\n| _ c\n");
    let clean = Reader::build_repo_info("c", "/w/c", None, "", true);
    let mut out2 = String::new();
    Printer::format_repo(&mut out2, &clean, true);
    assert_eq!(out2, "| c: [HEAD]\nNothing new!\n");
    assert_eq!(repo_lines(&clean, true), vec!["c", "[HEAD]", "Nothing new here!"]);
}

#[test]
fn verbose_print_of_counts_without_lists() {
    let r = record("counted", [2, 0, 1, 0]);
    let mut out = String::new();
    Printer::format_repo(&mut out, &r, true);
    assert_eq!(out, "| counted: [main]\n");
}

#[test]
fn empty_print() {
    assert_eq!(Printer::format_repos(&vec![], false), "");
}

#[test]
fn summary_of_large_counts() {
    let r = record("big", [1234, 0, 56, 7]);
    assert_eq!(Printer::compact_summary(&r), "?1234 +0 ~56 -7");
}

#[test]
fn verbose_panel_lines() {
    let r = Reader::build_repo_info("svc", "/w/svc", None, "?? a\nD  b\n", true);
    assert_eq!(repo_lines(&r, true), vec!["svc", "[HEAD]", "New: 1", "Deleted: 1"]);
}

#[test]
fn panel_heights() {
    assert_eq!(calculate_repo_height(&record("a", [0, 0, 0, 0]), true), 5);
    assert_eq!(calculate_repo_height(&record("a", [1, 2, 3, 4]), false), 5);
    assert_eq!(calculate_repo_height(&record("a", [1, 0, 3, 4]), true), 7);
    assert_eq!(calculate_repo_height(&record("a", [1, 2, 3, 4]), true), 8);
}

#[test]
fn row_heights_and_fit() {
    let h: Vec<u16> = vec![5, 7, 5, 5, 6, 5, 5, 5, 8];
    assert_eq!(row_height(&h, 4, 0), 7);
    assert_eq!(row_height(&h, 4, 1), 6);
    assert_eq!(row_height(&h, 4, 2), 8);
    assert_eq!(row_height(&h, 4, 3), 3);
    assert_eq!(visible_rows(&h, 4, 0, 100), 3);
    assert_eq!(visible_rows(&h, 4, 0, 13), 2);
    assert_eq!(visible_rows(&h, 4, 0, 12), 1);
    assert_eq!(visible_rows(&h, 4, 1, 6), 1);
    assert_eq!(visible_rows(&h, 4, 0, 6), 0);
    assert_eq!(visible_rows(&h, 4, 5, 100), 0);
    assert_eq!(visible_rows(&vec![], 4, 0, 100), 0);
}

#[test]
fn row_count_rounds_up() {
    assert_eq!(rows_for(0, 4), 0);
    assert_eq!(rows_for(4, 4), 1);
    assert_eq!(rows_for(5, 4), 2);
}

fn dashboard(changed: usize, clean: usize) -> App {
    let mut app = App::new(false);
    for i in 0..changed {
        app.add_repo(record(&format!("c{:03}", i), [1, 0, 0, 0]));
    }
    for i in 0..clean {
        app.add_repo(record(&format!("k{:03}", i), [0, 0, 0, 0]));
    }
    app
}

#[test]
fn scroll_down_stops_at_last_rows() {
    let mut app = dashboard(12, 0);
    // 12 panels in 4 columns are 3 rows; a height of 6 shows one row.
    app.scroll_down(4, 6);
    assert_eq!(app.scroll_offset, 1);
    app.scroll_down(4, 6);
    assert_eq!(app.scroll_offset, 2);
    app.scroll_down(4, 6);
    assert_eq!(app.scroll_offset, 2);
    app.scroll_up();
    app.scroll_up();
    app.scroll_up();
    assert_eq!(app.scroll_offset, 0);
}

#[test]
fn growing_viewport_pulls_scroll_back() {
    let mut app = dashboard(12, 0);
    app.scroll_down(4, 6);
    app.scroll_down(4, 6);
    assert_eq!(app.scroll_offset, 2);
    app.clamp_scroll(4, 12);
    assert_eq!(app.scroll_offset, 1);
    app.clamp_scroll(4, 6);
    assert_eq!(app.scroll_offset, 1);
    assert!(app.handle(Event::Fit { cols: 4, height: 60 }));
    assert_eq!(app.scroll_offset, 0);
}

#[test]
fn scroll_down_when_everything_fits() {
    let mut app = dashboard(3, 0);
    app.scroll_down(4, 60);
    assert_eq!(app.scroll_offset, 0);
}

#[test]
fn clean_strip_scrolls() {
    let mut app = dashboard(1, 5);
    app.scroll_clean_right(3);
    app.scroll_clean_right(3);
    app.scroll_clean_right(3);
    assert_eq!(app.clean_scroll_offset, 2);
    app.scroll_clean_left();
    assert_eq!(app.clean_scroll_offset, 1);
    assert_eq!(app.clean_range(36), (1, 4));
    assert_eq!(app.clean_indicator_text(36), " (4/5 clean)");
    assert_eq!(app.clean_indicator_text(120), " (5 clean)");
    assert_eq!(app.clean_indices(), vec![1, 2, 3, 4, 5]);
    assert_eq!(app.changed_indices(), vec![0]);
}

#[test]
fn titles_follow_state() {
    let mut app = dashboard(12, 2);
    assert_eq!(app.title_text(4, 60), "Repolice - Loading repositories... (14 found)");
    app.set_loading_complete();
    assert_eq!(app.title_text(4, 60), "Repolice (12 with changes, 2 clean)");
    assert_eq!(app.title_text(4, 6), "Repolice - Repos with changes (Scroll: 1/3)");
    assert_eq!(app.instruction_text(4, 6), "Press ↑/↓ to scroll repos, ←/→ to scroll clean repos, 'q' to quit");
    assert_eq!(app.instruction_text(4, 60), "Press ←/→ to scroll clean repos, 'q' to quit");
    let only_changed = dashboard(2, 0);
    assert_eq!(only_changed.instruction_text(4, 60), "Press 'q' to quit");
    assert_eq!(dashboard(12, 0).instruction_text(4, 6), "Press ↑/↓ to scroll, 'q' to quit");
}

#[test]
fn title_counts_failed_probes() {
    let mut app = dashboard(1, 1);
    assert!(app.handle(Event::Failed(repolice::reader::ProbeError::new("/gone"))));
    assert!(app.handle(Event::Closed));
    assert_eq!(app.title_text(4, 60), "Repolice (1 with changes, 1 clean) (1 failed)");
}

#[test]
fn changed_heights_follow_records() {
    let mut app = App::new(true);
    app.add_repo(record("a", [1, 1, 0, 0]));
    app.add_repo(record("b", [0, 0, 0, 0]));
    app.add_repo(record("c", [1, 0, 0, 0]));
    assert_eq!(app.changed_heights(), vec![6, 5]);
}

#[test]
fn quit_ends_the_loop() {
    let mut app = App::new(false);
    assert!(app.handle(Event::ScrollUp));
    assert!(app.handle(Event::ScrollDown { cols: 0, height: 10 }));
    assert!(app.handle(Event::ScrollLeft));
    assert!(app.handle(Event::ScrollRight { visible: 1 }));
    assert!(!app.handle(Event::Quit));
    assert!(app.loading);
}
