use repolice::reader::Reader;

#[test]
fn depth_limit_excludes_deeper_repository() {
    let found = Reader::discover("/root", "/root/a/b/.git\n", 1);
    assert!(found.is_empty());
}

#[test]
fn depth_limit_keeps_shallow_repositories() {
    let listing = "/root/.git\n/root/a/.git\n/root/a/b/.git\n/root/a/b/c/.git\n";
    assert_eq!(Reader::discover("/root", listing, 1), vec!["/root", "/root/a"]);
    assert_eq!(Reader::discover("/root", listing, 2), vec!["/root", "/root/a", "/root/a/b"]);
    assert_eq!(Reader::discover("/root/", listing, 0), vec!["/root"]);
}

#[test]
fn discovery_skips_other_lines() {
    let listing = "./x/.git\n./y/.github\n\n./z/.git";
    assert_eq!(Reader::discover(".", listing, 10), vec!["./x", "./z"]);
}

#[test]
fn discovery_of_empty_listing() {
    assert!(Reader::discover("/", "", 10).is_empty());
}
