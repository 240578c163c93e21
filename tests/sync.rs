use green::sync::{plan_sync, progress_events, sync_result, LocalFile, ProgressCounter, UpgradeStatus};
use green::tree::{Directory, FileEntry, WalkEntry};

fn target() -> Vec<WalkEntry> {
    let mut mods = Directory::new();
    mods.insert_file("a.jar".to_string(), FileEntry { sha: "X".to_string(), url: "U1".to_string() });
    mods.insert_file("b.jar".to_string(), FileEntry { sha: "Y".to_string(), url: "U2".to_string() });
    let mut root = Directory::new();
    root.insert_child("mods".to_string(), mods);
    root.walk()
}

fn local(path: &str, sha: &str) -> LocalFile {
    LocalFile { path: path.to_string(), sha: sha.to_string() }
}

#[test]
fn empty_folder_downloads_everything() {
    let t = target();
    let plan = plan_sync(&t, &vec![]);
    assert_eq!(plan.download, vec![true, true]);
    assert_eq!(plan.delete, Vec::<bool>::new());
    let events = progress_events(&plan);
    assert_eq!(events, vec![UpgradeStatus::Length(2), UpgradeStatus::Tick, UpgradeStatus::Tick]);
    // once written, both files hold the target digests
    let after: Vec<LocalFile> = t.iter().map(|e| local(&e.path, &e.file.sha)).collect();
    assert_eq!(after[0], local("mods/a.jar", "X"));
    assert_eq!(after[1], local("mods/b.jar", "Y"));
}

#[test]
fn matching_file_kept_extra_file_deleted() {
    let t = target();
    let l = vec![local("mods/a.jar", "X"), local("mods/c.jar", "Z")];
    let plan = plan_sync(&t, &l);
    assert_eq!(plan.download, vec![false, true]);
    assert_eq!(plan.delete, vec![false, true]);
    assert_eq!(plan.total, 2);
}

#[test]
fn changed_file_is_downloaded_again() {
    let t = target();
    let plan = plan_sync(&t, &vec![local("mods/a.jar", "old"), local("mods/b.jar", "Y")]);
    assert_eq!(plan.download, vec![true, false]);
    assert_eq!(plan.delete, vec![false, false]);
}

#[test]
fn second_sync_downloads_nothing() {
    let t = target();
    let first = plan_sync(&t, &vec![local("mods/c.jar", "Z")]);
    assert_eq!(first.download, vec![true, true]);
    let after = vec![local("mods/a.jar", "X"), local("mods/b.jar", "Y")];
    let second = plan_sync(&t, &after);
    assert_eq!(second.download, vec![false, false]);
    assert_eq!(second.delete, vec![false, false]);
    assert_eq!(progress_events(&second).len(), 3);
}

#[test]
fn empty_target_deletes_everything() {
    let plan = plan_sync(&vec![], &vec![local("config/x.toml", "A")]);
    assert_eq!(plan.delete, vec![true]);
    assert_eq!(progress_events(&plan), vec![UpgradeStatus::Length(0)]);
}

#[test]
fn progress_counter_follows_events() {
    let mut c = ProgressCounter::new();
    c.record(&UpgradeStatus::Tick);
    assert_eq!((c.total, c.done), (None, 0));
    c.record(&UpgradeStatus::Length(2));
    c.record(&UpgradeStatus::Tick);
    c.record(&UpgradeStatus::Tick);
    c.record(&UpgradeStatus::Tick);
    assert_eq!((c.total, c.done), (Some(2), 2));
}

#[test]
fn sync_result_keeps_matches_and_adds_downloads() {
    let t = target();
    let l = vec![local("mods/c.jar", "Z"), local("mods/a.jar", "X")];
    let after = sync_result(&t, &l);
    assert_eq!(after, vec![local("mods/a.jar", "X"), local("mods/b.jar", "Y")]);
    let again = plan_sync(&t, &after);
    assert_eq!(again.download, vec![false, false]);
    assert_eq!(again.delete, vec![false, false]);
}

#[test]
fn sync_result_replaces_stale_file() {
    let t = target();
    let after = sync_result(&t, &vec![local("mods/a.jar", "old")]);
    assert_eq!(after, vec![local("mods/a.jar", "X"), local("mods/b.jar", "Y")]);
}
