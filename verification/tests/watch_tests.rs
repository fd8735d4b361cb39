use terminal_studio::path_map::PathMap;
use terminal_studio::watch::{DirData, MergeOperation, WatchResult, WatchState};

fn empty_dir_data() -> DirData {
    DirData {
        is_git: true,
        git_diff: String::new(),
        git_status: String::new(),
        git_unpushed: Vec::new(),
        git_refresh_at: None,
        merge_operation: MergeOperation::NoOperation,
        md_files: PathMap::new(),
        dir_entries: Vec::new(),
    }
}

#[test]
fn dir_added_inserts_new_entry() {
    let (mut ws, tx) = WatchState::new_for_test();
    let path = "/test/project".to_string();
    let mut data = empty_dir_data();
    data.git_status = "M file.rs".to_string();
    tx.send(WatchResult::DirAdded {
        path: path.clone(),
        data,
    })
    .unwrap();
    ws.drain_results();
    assert_eq!(ws.dir_data.get(&path).unwrap().git_status, "M file.rs");
}

#[test]
fn dir_added_preserves_existing_git_data() {
    let (mut ws, tx) = WatchState::new_for_test();
    let path = "/test/project".to_string();

    let mut existing = empty_dir_data();
    existing.git_status = "M src/main.rs".to_string();
    existing.git_diff = "diff --git a/src/main.rs".to_string();
    existing.git_unpushed = vec![("abc123".into(), "fix bug".into())];
    ws.dir_data.insert(path.clone(), existing);

    let fresh = empty_dir_data();
    assert!(fresh.git_status.is_empty());
    tx.send(WatchResult::DirAdded {
        path: path.clone(),
        data: fresh,
    })
    .unwrap();
    ws.drain_results();

    assert_eq!(ws.dir_data.get(&path).unwrap().git_status, "M src/main.rs");
    assert_eq!(
        ws.dir_data.get(&path).unwrap().git_diff,
        "diff --git a/src/main.rs"
    );
    assert_eq!(ws.dir_data.get(&path).unwrap().git_unpushed.len(), 1);
}

#[test]
fn dir_added_updates_non_git_fields() {
    let (mut ws, tx) = WatchState::new_for_test();
    let path = "/test/project".to_string();

    let mut existing = empty_dir_data();
    existing.git_status = "M old.rs".to_string();
    existing.is_git = false;
    ws.dir_data.insert(path.clone(), existing);

    let mut fresh = empty_dir_data();
    fresh.is_git = true;
    tx.send(WatchResult::DirAdded {
        path: path.clone(),
        data: fresh,
    })
    .unwrap();
    ws.drain_results();

    assert!(ws.dir_data.get(&path).unwrap().is_git);
    assert_eq!(ws.dir_data.get(&path).unwrap().git_status, "M old.rs");
}

#[test]
fn dir_removed_then_added_starts_fresh() {
    let (mut ws, tx) = WatchState::new_for_test();
    let path = "/test/project".to_string();

    let mut existing = empty_dir_data();
    existing.git_status = "M old.rs".to_string();
    ws.dir_data.insert(path.clone(), existing);

    tx.send(WatchResult::DirRemoved(path.clone())).unwrap();
    let fresh = empty_dir_data();
    tx.send(WatchResult::DirAdded {
        path: path.clone(),
        data: fresh,
    })
    .unwrap();
    ws.drain_results();

    assert!(ws.dir_data.get(&path).unwrap().git_status.is_empty());
}

#[test]
fn apply_git_result_populates_data() {
    let (mut ws, _tx) = WatchState::new_for_test();
    let path = "/test/project".to_string();
    ws.dir_data.insert(path.clone(), empty_dir_data());

    ws.apply_git_result(
        &path,
        "staged diff".into(),
        "M file.rs".into(),
        MergeOperation::NoOperation,
    );

    assert_eq!(ws.dir_data.get(&path).unwrap().git_status, "M file.rs");
    assert_eq!(ws.dir_data.get(&path).unwrap().git_diff, "staged diff");
}

#[test]
fn apply_git_result_ignores_missing_dir() {
    let (mut ws, _tx) = WatchState::new_for_test();
    let path = "/nonexistent".to_string();
    ws.apply_git_result(
        &path,
        "diff".into(),
        "status".into(),
        MergeOperation::NoOperation,
    );
    assert!(!ws.dir_data.contains_key(&path));
}

#[test]
fn take_pending_git_refreshes_consumes_once() {
    let (mut ws, _tx) = WatchState::new_for_test();
    let path = "/test/project".to_string();
    let mut data = empty_dir_data();
    data.git_refresh_at = Some(ws.clock_millis());
    ws.dir_data.insert(path.clone(), data);

    let pending = ws.take_pending_git_refreshes();
    assert_eq!(pending, vec![path.clone()]);

    let pending2 = ws.take_pending_git_refreshes();
    assert!(pending2.is_empty());
}

#[test]
fn dir_added_after_apply_preserves_git_data() {
    let (mut ws, tx) = WatchState::new_for_test();
    let path = "/test/project".to_string();
    ws.dir_data.insert(path.clone(), empty_dir_data());

    ws.apply_git_result(
        &path,
        "real diff".into(),
        "M real.rs".into(),
        MergeOperation::NoOperation,
    );
    assert_eq!(ws.dir_data.get(&path).unwrap().git_status, "M real.rs");

    let fresh = empty_dir_data();
    tx.send(WatchResult::DirAdded {
        path: path.clone(),
        data: fresh,
    })
    .unwrap();
    ws.drain_results();

    assert_eq!(ws.dir_data.get(&path).unwrap().git_status, "M real.rs");
    assert_eq!(ws.dir_data.get(&path).unwrap().git_diff, "real diff");
}

// ---- further cases ----

#[test]
fn drain_results_reports_md_and_file_changes_in_order() {
    let (mut ws, tx) = WatchState::new_for_test();
    let dir = "/p".to_string();
    ws.dir_data.insert(dir.clone(), empty_dir_data());
    tx.send(WatchResult::MdCreated {
        dir: dir.clone(),
        path: "/p/a.md".into(),
        content: "# A".into(),
    })
    .unwrap();
    tx.send(WatchResult::FileModified("/p/x.rs".into())).unwrap();
    tx.send(WatchResult::MdCreated {
        dir: "/elsewhere".into(),
        path: "/elsewhere/b.md".into(),
        content: "# B".into(),
    })
    .unwrap();
    tx.send(WatchResult::MdRemoved {
        dir: dir.clone(),
        path: "/p/old.md".into(),
    })
    .unwrap();
    let (created, removed, modified) = ws.drain_results();
    assert_eq!(created, vec!["/p/a.md".to_string(), "/elsewhere/b.md".to_string()]);
    assert_eq!(removed, vec!["/p/old.md".to_string()]);
    assert_eq!(modified, vec!["/p/x.rs".to_string()]);
    let d = ws.dir_data.get(&dir).unwrap();
    assert_eq!(d.md_files.get("/p/a.md").map(|s| s.as_str()), Some("# A"));
    assert!(!ws.dir_data.contains_key("/elsewhere"));
}

#[test]
fn drain_results_md_removed_drops_file() {
    let (mut ws, tx) = WatchState::new_for_test();
    let dir = "/p".to_string();
    let mut d = empty_dir_data();
    d.md_files.insert("/p/a.md".into(), "x".into());
    ws.dir_data.insert(dir.clone(), d);
    tx.send(WatchResult::MdRemoved {
        dir: dir.clone(),
        path: "/p/a.md".into(),
    })
    .unwrap();
    ws.drain_results();
    assert!(!ws.dir_data.get(&dir).unwrap().md_files.contains_key("/p/a.md"));
}

#[test]
fn drain_results_entries_refreshed_replaces_entries() {
    let (mut ws, tx) = WatchState::new_for_test();
    let dir = "/p".to_string();
    ws.dir_data.insert(dir.clone(), empty_dir_data());
    tx.send(WatchResult::DirEntriesRefreshed {
        dir: dir.clone(),
        entries: vec!["a".into(), "b".into()],
    })
    .unwrap();
    ws.drain_results();
    assert_eq!(
        ws.dir_data.get(&dir).unwrap().dir_entries,
        vec!["a".to_string(), "b".to_string()]
    );
}

#[test]
fn git_refresh_needed_marks_known_dir_once() {
    let (mut ws, tx) = WatchState::new_for_test();
    let dir = "/p".to_string();
    ws.dir_data.insert(dir.clone(), empty_dir_data());
    tx.send(WatchResult::GitRefreshNeeded(dir.clone())).unwrap();
    tx.send(WatchResult::GitRefreshNeeded("/unknown".into())).unwrap();
    ws.drain_results();
    let at = ws.dir_data.get(&dir).unwrap().git_refresh_at;
    assert!(at.is_some());
    assert!(!ws.dir_data.contains_key("/unknown"));
    // A second request keeps the first time.
    tx.send(WatchResult::GitRefreshNeeded(dir.clone())).unwrap();
    ws.drain_results();
    assert_eq!(ws.dir_data.get(&dir).unwrap().git_refresh_at, at);
    assert_eq!(ws.take_pending_git_refreshes(), vec![dir.clone()]);
    assert_eq!(ws.dir_data.get(&dir).unwrap().git_refresh_at, None);
}

#[test]
fn take_pending_at_respects_time() {
    let (mut ws, _tx) = WatchState::new_for_test();
    let mut a = empty_dir_data();
    a.git_refresh_at = Some(100);
    let mut b = empty_dir_data();
    b.git_refresh_at = Some(50);
    ws.dir_data.insert("/a".into(), a);
    ws.dir_data.insert("/b".into(), b);
    ws.dir_data.insert("/c".into(), empty_dir_data());
    assert!(ws.take_pending_git_refreshes_at(10).is_empty());
    assert_eq!(ws.take_pending_git_refreshes_at(60), vec!["/b".to_string()]);
    assert_eq!(ws.take_pending_git_refreshes_at(100), vec!["/a".to_string()]);
    assert!(ws.take_pending_git_refreshes_at(1000).is_empty());
}

#[test]
fn apply_unpushed_result_sets_commits() {
    let (mut ws, _tx) = WatchState::new_for_test();
    ws.dir_data.insert("/p".into(), empty_dir_data());
    ws.apply_unpushed_result("/p", vec![("h1".into(), "s1".into()), ("h2".into(), "s2".into())]);
    assert_eq!(ws.dir_data.get("/p").unwrap().git_unpushed.len(), 2);
    ws.apply_unpushed_result("/q", vec![("h".into(), "s".into())]);
    assert!(!ws.dir_data.contains_key("/q"));
}

#[test]
fn apply_git_result_sets_merge_operation() {
    let (mut ws, _tx) = WatchState::new_for_test();
    ws.dir_data.insert("/p".into(), empty_dir_data());
    ws.apply_git_result("/p", "d".into(), "s".into(), MergeOperation::Rebase);
    assert_eq!(
        ws.dir_data.get("/p").unwrap().merge_operation,
        MergeOperation::Rebase
    );
}
