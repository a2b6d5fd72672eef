use servedir::index::{DirEntry, DirectoryIndex, RawEntry};

fn segs(parts: &[&str]) -> Vec<String> {
    parts.iter().map(|p| p.to_string()).collect()
}

fn raw(name: &str, is_directory: bool, size: u64) -> RawEntry {
    RawEntry {
        name: name.to_string(),
        is_directory,
        is_symlink: false,
        size,
        elapsed_secs: None,
    }
}

fn names(entries: &[DirEntry]) -> Vec<String> {
    entries.iter().map(|e| e.name.clone()).collect()
}

#[test]
fn root_listing_scenario() {
    // a root holding a 10-byte file, a directory, and a hidden file
    let index = DirectoryIndex::new(segs(&[]), segs(&["srv"]), segs(&["srv"]));
    let model = index.build_listing(
        vec![raw("b.txt", false, 10), raw("A", true, 0), raw(".hidden", false, 1)],
        true,
    );
    assert_eq!(names(&model.entries), segs(&["A", "b.txt"]));
    assert_eq!(model.base_dir, "/");
    assert!(model.parent.is_none());
    assert!(model.breadcrumbs.is_empty());
    assert_eq!(model.entries[0].path, "/A");
    assert_eq!(model.entries[1].path, "/b.txt");
    assert_eq!(model.entries[1].size, "10 B");
    assert!(model.entries[0].is_directory);
    assert!(!model.entries[1].is_directory);
}

#[test]
fn directories_sort_before_files_and_names_ascend() {
    let index = DirectoryIndex::new(segs(&[]), segs(&["srv"]), segs(&["srv"]));
    let model = index.build_listing(
        vec![
            raw("zeta", false, 1),
            raw("beta", true, 0),
            raw("alpha", false, 1),
            raw("omega", true, 0),
            raw("Zed", false, 1),
        ],
        true,
    );
    assert_eq!(
        names(&model.entries),
        segs(&["beta", "omega", "Zed", "alpha", "zeta"])
    );
    assert!(model.entries[0].is_directory);
    assert!(model.entries[1].is_directory);
    assert!(!model.entries[2].is_directory);
}

#[test]
fn dotfiles_are_excluded_entirely() {
    let index = DirectoryIndex::new(segs(&[]), segs(&["srv"]), segs(&["srv"]));
    let model = index.build_listing(
        vec![raw(".git", true, 0), raw(".env", false, 9), raw("kept", false, 1)],
        true,
    );
    assert_eq!(names(&model.entries), segs(&["kept"]));
}

#[test]
fn subdirectory_listing_has_parent_and_breadcrumbs() {
    let index = DirectoryIndex::new(
        segs(&["docs", "api"]),
        segs(&["srv", "docs", "api"]),
        segs(&["srv"]),
    );
    let model = index.build_listing(vec![raw("x.txt", false, 5)], false);
    assert_eq!(model.base_dir, "/docs/api");
    assert_eq!(model.parent.as_deref(), Some("/docs"));
    assert_eq!(model.breadcrumbs, segs(&["docs", "api"]));
    assert_eq!(model.entries[0].path, "/docs/api/x.txt");
}

#[test]
fn first_level_parent_is_the_root() {
    let index = DirectoryIndex::new(segs(&["docs"]), segs(&["srv", "docs"]), segs(&["srv"]));
    let model = index.build_listing(vec![], false);
    assert_eq!(model.base_dir, "/docs");
    assert_eq!(model.parent.as_deref(), Some("/"));
    assert!(model.entries.is_empty());
}

#[test]
fn path_outside_root_falls_back_to_its_own_segments() {
    let index = DirectoryIndex::new(segs(&[]), segs(&["elsewhere", "dir"]), segs(&["srv"]));
    let model = index.build_listing(vec![raw("f", false, 1)], true);
    assert_eq!(model.base_dir, "/elsewhere/dir");
    assert_eq!(model.entries[0].path, "/elsewhere/dir/f");
}

#[test]
fn sizes_are_formatted_in_listings() {
    let index = DirectoryIndex::new(segs(&[]), segs(&["srv"]), segs(&["srv"]));
    let model = index.build_listing(vec![raw("big", false, 2_500_000)], true);
    assert_eq!(model.entries[0].size, "2.50 MB");
}

#[test]
fn ages_are_formatted_when_a_timestamp_exists() {
    let index = DirectoryIndex::new(segs(&[]), segs(&["srv"]), segs(&["srv"]));
    let mut old_file = raw("old", false, 1);
    old_file.elapsed_secs = Some(3600);
    let mut older_file = raw("older", false, 1);
    older_file.elapsed_secs = Some(3600 * 24);
    let fresh = raw("fresh", false, 1);
    let model = index.build_listing(vec![old_file, older_file, fresh], true);
    assert_eq!(model.entries[1].last_modified.as_deref(), Some("1 hour ago"));
    assert_eq!(model.entries[2].last_modified.as_deref(), Some("1 day ago"));
    assert!(model.entries[0].last_modified.is_none());
}

#[test]
fn symlink_flag_is_carried_through() {
    let index = DirectoryIndex::new(segs(&[]), segs(&["srv"]), segs(&["srv"]));
    let mut link = raw("link", false, 0);
    link.is_symlink = true;
    let model = index.build_listing(vec![link], true);
    assert!(model.entries[0].is_symlink);
}
