use browsecore::errors::CoreError;
use browsecore::scanner::{list_files, read_dir_recursive, FileNode, RawEntry, MAX_DEPTH};

fn file(name: &str) -> RawEntry {
    RawEntry::File { name: String::from(name), path: format!("/root/{}", name) }
}

fn dir(name: &str, entries: Vec<RawEntry>) -> RawEntry {
    RawEntry::Dir {
        name: String::from(name),
        path: format!("/root/{}", name),
        listing: Ok(entries),
    }
}

fn unreadable_dir(name: &str, message: &str) -> RawEntry {
    RawEntry::Dir {
        name: String::from(name),
        path: format!("/root/{}", name),
        listing: Err(String::from(message)),
    }
}

fn names(nodes: &[FileNode]) -> Vec<&str> {
    nodes.iter().map(|n| n.name.as_str()).collect()
}

#[test]
fn depth_zero_lists_immediate_children_without_recursing() {
    let snapshot = vec![
        file("b.txt"),
        dir("sub", vec![file("inner.txt")]),
        file("a.txt"),
    ];
    let nodes = list_files(&snapshot, Some(0)).unwrap();
    assert_eq!(names(&nodes), vec!["a.txt", "b.txt", "sub"]);
    for n in &nodes {
        // directory entries still appear, but carry no child listing
        assert!(n.children.is_none());
    }
    assert!(nodes[2].is_directory);
}

#[test]
fn absent_depth_means_depth_zero() {
    let snapshot = vec![dir("sub", vec![file("inner.txt")])];
    let nodes = list_files(&snapshot, None).unwrap();
    assert_eq!(nodes.len(), 1);
    assert!(nodes[0].children.is_none());
}

#[test]
fn any_depth_at_or_above_the_ceiling_scans_like_the_ceiling() {
    let deep = vec![dir(
        "l1",
        vec![dir("l2", vec![dir("l3", vec![dir("l4", vec![file("deep.txt")])])])],
    )];
    let at_ceiling = list_files(&deep, Some(MAX_DEPTH)).unwrap();
    let above = list_files(&deep, Some(MAX_DEPTH + 5)).unwrap();
    let far_above = list_files(&deep, Some(u32::MAX)).unwrap();
    assert!(above == at_ceiling);
    assert!(far_above == at_ceiling);
}

#[test]
fn listing_order_is_case_insensitive_with_exact_name_tie_break() {
    let snapshot = vec![
        file("banana"),
        file("Apple"),
        file("cherry"),
        file("BANANA2"),
        file("a.txt"),
        file("A.txt"),
    ];
    let nodes = list_files(&snapshot, Some(0)).unwrap();
    assert_eq!(names(&nodes), vec!["A.txt", "a.txt", "Apple", "banana", "BANANA2", "cherry"]);
}

#[test]
fn listing_order_does_not_depend_on_enumeration_order() {
    let one = vec![file("b"), dir("c", vec![file("x")]), file("A")];
    let other = vec![file("A"), file("b"), dir("c", vec![file("x")])];
    let scanned_one = list_files(&one, Some(2)).unwrap();
    let scanned_other = list_files(&other, Some(2)).unwrap();
    assert!(scanned_one == scanned_other);
}

#[test]
fn directories_recurse_up_to_the_requested_depth() {
    let snapshot = vec![dir("outer", vec![file("f1"), dir("inner", vec![file("f2")])])];
    let nodes = list_files(&snapshot, Some(1)).unwrap();
    assert_eq!(nodes.len(), 1);
    let outer = &nodes[0];
    assert!(outer.is_directory);
    let children = outer.children.as_ref().unwrap();
    assert_eq!(names(children), vec!["f1", "inner"]);
    // depth exhausted: the nested directory appears without children
    assert!(children[1].children.is_none());
}

#[test]
fn an_unreadable_entry_aborts_the_scan() {
    let snapshot = vec![
        file("good"),
        RawEntry::MetaError { detail: String::from("permission denied: /root/bad") },
        file("also-good"),
    ];
    let r = list_files(&snapshot, Some(0));
    match r {
        Err(CoreError::PermissionOrIo(m)) => assert_eq!(m, "permission denied: /root/bad"),
        _ => panic!("an unreadable entry must abort the scan"),
    }
}

#[test]
fn a_vanished_entry_is_skipped_silently() {
    let snapshot = vec![file("kept"), RawEntry::Vanished, file("also-kept")];
    let nodes = list_files(&snapshot, Some(0)).unwrap();
    assert_eq!(names(&nodes), vec!["also-kept", "kept"]);
}

#[test]
fn an_unreadable_subdirectory_is_fatal_when_reached() {
    let snapshot = vec![file("ok"), unreadable_dir("locked", "permission denied")];
    let r = list_files(&snapshot, Some(1));
    match r {
        Err(CoreError::PermissionOrIo(m)) => assert_eq!(m, "permission denied"),
        _ => panic!("an unreadable listing must abort a scan that reaches it"),
    }
}

#[test]
fn an_unreadable_subdirectory_past_the_depth_limit_is_never_read() {
    let snapshot = vec![file("ok"), unreadable_dir("locked", "permission denied")];
    let nodes = list_files(&snapshot, Some(0)).unwrap();
    assert_eq!(names(&nodes), vec!["locked", "ok"]);
}

#[test]
fn a_listing_past_the_ceiling_is_empty() {
    let snapshot = vec![file("whatever")];
    let nodes = read_dir_recursive(&snapshot, 2, MAX_DEPTH + 1).unwrap();
    assert!(nodes.is_empty());
}
