use browsecore::errors::CoreError;
use browsecore::history::{is_json_name, list_history_files, list_json_files_recursive};
use browsecore::scanner::RawEntry;

fn blob(name: &str, path: &str) -> RawEntry {
    RawEntry::File { name: String::from(name), path: String::from(path) }
}

fn folder(name: &str, entries: Vec<RawEntry>) -> RawEntry {
    RawEntry::Dir { name: String::from(name), path: format!("/data/{}", name), listing: Ok(entries) }
}

#[test]
fn json_extension_detection() {
    assert!(is_json_name("session.json"));
    assert!(is_json_name("a.b.json"));
    assert!(!is_json_name("notes.txt"));
    assert!(!is_json_name("json"));
    // a bare dot-json name is a hidden file, not a json-extension one
    assert!(!is_json_name(".json"));
    // the comparison is case-sensitive, as the host's extension check is
    assert!(!is_json_name("loud.JSON"));
}

#[test]
fn collects_json_blobs_depth_first_in_entry_order() {
    let tree = vec![
        blob("one.json", "/data/one.json"),
        folder(
            "nested",
            vec![
                blob("ignored.txt", "/data/nested/ignored.txt"),
                blob("two.json", "/data/nested/two.json"),
            ],
        ),
        blob("three.json", "/data/three.json"),
        blob("readme.md", "/data/readme.md"),
    ];
    let files = list_history_files(&tree).unwrap();
    assert_eq!(files, vec!["/data/one.json", "/data/nested/two.json", "/data/three.json"]);
}

#[test]
fn appends_to_what_the_caller_already_collected() {
    let tree = vec![blob("late.json", "/data/late.json")];
    let mut files = vec![String::from("/data/early.json")];
    list_json_files_recursive(&tree, &mut files).unwrap();
    assert_eq!(files, vec!["/data/early.json", "/data/late.json"]);
}

#[test]
fn an_empty_store_lists_nothing() {
    let files = list_history_files(&Vec::new()).unwrap();
    assert!(files.is_empty());
}

#[test]
fn an_unreadable_sub_listing_aborts_the_walk() {
    let tree = vec![RawEntry::Dir {
        name: String::from("locked"),
        path: String::from("/data/locked"),
        listing: Err(String::from("permission denied")),
    }];
    let r = list_history_files(&tree);
    match r {
        Err(CoreError::PermissionOrIo(m)) => assert_eq!(m, "permission denied"),
        _ => panic!("an unreadable listing must abort the walk"),
    }
}
