use green::tree::{Directory, FileEntry};

fn entry(sha: &str, url: &str) -> FileEntry {
    FileEntry { sha: sha.to_string(), url: url.to_string() }
}

#[test]
fn later_file_replaces_earlier() {
    let mut d = Directory::new();
    d.insert_file("a.jar".to_string(), entry("1", "u1"));
    d.insert_file("b.jar".to_string(), entry("2", "u2"));
    d.insert_file("a.jar".to_string(), entry("3", "u3"));
    assert_eq!(d.files.len(), 2);
    assert_eq!(d.files[0].name, "a.jar");
    assert_eq!(d.files[0].file, entry("3", "u3"));
    assert_eq!(d.find_file(&"b.jar".to_string()), Some(1));
    assert_eq!(d.find_file(&"c.jar".to_string()), None);
}

#[test]
fn walk_lists_files_depth_first() {
    let mut inner = Directory::new();
    inner.insert_file("deep.txt".to_string(), entry("d", "ud"));
    let mut mods = Directory::new();
    mods.insert_file("a.jar".to_string(), entry("a", "ua"));
    mods.insert_child("inner".to_string(), inner);
    let mut root = Directory::new();
    root.insert_file("top.txt".to_string(), entry("t", "ut"));
    root.insert_child("mods".to_string(), mods);
    let w = root.walk();
    let paths: Vec<&str> = w.iter().map(|e| e.path.as_str()).collect();
    assert_eq!(paths, vec!["top.txt", "mods/a.jar", "mods/inner/deep.txt"]);
    assert_eq!(w[2].file, entry("d", "ud"));
}

#[test]
fn take_child_removes_it() {
    let mut root = Directory::new();
    let mut mods = Directory::new();
    mods.insert_file("a.jar".to_string(), entry("a", "ua"));
    root.insert_child("mods".to_string(), mods);
    let taken = root.take_child(&"mods".to_string());
    assert_eq!(taken.files.len(), 1);
    assert_eq!(root.children.len(), 0);
    let empty = root.take_child(&"mods".to_string());
    assert_eq!(empty, Directory::new());
}

#[test]
fn empty_tree_walks_to_nothing() {
    assert_eq!(Directory::new().walk().len(), 0);
}

#[test]
fn file_and_directory_names_do_not_clash() {
    let mut d = Directory::new();
    d.insert_child("config".to_string(), Directory::new());
    d.insert_file("config".to_string(), entry("c", "uc"));
    assert_eq!(d.children.len(), 0);
    assert_eq!(d.files.len(), 1);
    d.insert_child("config".to_string(), Directory::new());
    assert_eq!(d.files.len(), 0);
    assert_eq!(d.children.len(), 1);
    d.remove_file(&"absent".to_string());
    assert_eq!(d.children.len(), 1);
}
