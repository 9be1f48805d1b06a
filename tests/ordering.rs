use repolice::order::{precedes, sort_records};
use repolice::reader::{FileTracker, Reader, RepoInfo};
use repolice::tui::App;

fn record(name: &str, path: &str, counts: [usize; 4]) -> RepoInfo {
    RepoInfo {
        name: name.to_string(),
        path: path.to_string(),
        branch: "main".to_string(),
        new_files: FileTracker::new("??", counts[0], None),
        added_files: FileTracker::new("A", counts[1], None),
        modified_files: FileTracker::new("M", counts[2], None),
        deleted_files: FileTracker::new("D", counts[3], None),
    }
}

fn sample() -> Vec<RepoInfo> {
    vec![
        record("zeta", "/r/zeta", [0, 0, 0, 0]),
        record("beta", "/r/beta", [1, 0, 0, 0]),
        record("alpha", "/r/alpha", [0, 0, 0, 0]),
        record("gamma", "/r/gamma", [2, 1, 0, 0]),
        record("delta", "/r/delta", [0, 0, 1, 0]),
        record("alpha", "/q/alpha", [0, 0, 0, 0]),
    ]
}

fn paths(v: &[RepoInfo]) -> Vec<String> {
    v.iter().map(|r| r.path.clone()).collect()
}

#[test]
fn sort_orders_by_changes_then_name() {
    let sorted = sort_records(sample());
    assert_eq!(
        paths(&sorted),
        vec!["/r/gamma", "/r/beta", "/r/delta", "/q/alpha", "/r/alpha", "/r/zeta"]
    );
}

#[test]
fn precedes_compares_counts_and_names() {
    let a = record("a", "/a", [1, 0, 0, 0]);
    let b = record("b", "/b", [3, 0, 0, 0]);
    let c = record("c", "/c", [0, 0, 0, 0]);
    assert!(precedes(&b, &a));
    assert!(!precedes(&a, &b));
    assert!(precedes(&a, &c));
    assert!(!precedes(&c, &a));
    assert!(!precedes(&a, &a));
}

#[test]
fn streamed_order_matches_batch_order() {
    let batch = sort_records(sample());
    let mut reversed = sample();
    reversed.reverse();
    let mut app = App::new(false);
    for r in reversed {
        app.add_repo(r);
    }
    app.set_loading_complete();
    assert_eq!(paths(&app.repos), paths(&batch));
    assert!(!app.loading);
    assert_eq!(app.total_found, 6);
}

#[test]
fn any_arrival_order_sorts_the_same() {
    let first = sort_records(sample());
    let mut rotated = sample();
    rotated.rotate_left(2);
    let second = sort_records(rotated);
    assert_eq!(paths(&first), paths(&second));
}

#[test]
fn streaming_collects_what_batch_collects() {
    let outcomes = || {
        vec![
            Ok(record("one", "/x/one", [0, 1, 0, 0])),
            Err(repolice::reader::ProbeError::new("/x/broken")),
            Ok(record("two", "/x/two", [0, 0, 0, 0])),
        ]
    };
    let batch = Reader::collect_repos(outcomes());
    let mut app = App::new(false);
    let mut events = outcomes();
    events.reverse();
    for o in events {
        let e = match o {
            Ok(r) => repolice::tui::Event::Arrived(r),
            Err(e) => repolice::tui::Event::Failed(e),
        };
        assert!(app.handle(e));
    }
    assert!(app.handle(repolice::tui::Event::Closed));
    assert_eq!(paths(&app.repos), paths(&batch.repos));
    assert_eq!(app.failed, 1);
    assert!(!app.loading);
}
