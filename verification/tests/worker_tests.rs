use terminal_studio::watch::WatchResult;
use terminal_studio::worker::{is_md_path, FsEvent, FsEventKind, WorkerState};

fn state_with(dirs: &[(&str, Option<&str>)]) -> WorkerState {
    let mut w = WorkerState::new();
    for (d, root) in dirs {
        w.record_added(d, root.map(|r| r.to_string()), None);
    }
    w
}

fn describe(r: &WatchResult) -> String {
    match r {
        WatchResult::DirAdded { path, .. } => format!("added {path}"),
        WatchResult::DirRemoved(p) => format!("removed {p}"),
        WatchResult::DirEntriesRefreshed { dir, .. } => format!("entries {dir}"),
        WatchResult::MdCreated { dir, path, content } => format!("md {dir} {path} {content}"),
        WatchResult::MdRemoved { dir, path } => format!("md-removed {dir} {path}"),
        WatchResult::FileModified(p) => format!("modified {p}"),
        WatchResult::GitRefreshNeeded(p) => format!("git {p}"),
    }
}

fn event(kind: FsEventKind, paths: &[(&str, Option<&str>)]) -> FsEvent {
    FsEvent {
        kind,
        paths: paths
            .iter()
            .map(|(p, c)| (p.to_string(), c.map(|c| c.to_string())))
            .collect(),
    }
}

#[test]
fn markdown_paths() {
    assert!(is_md_path("/a/README.md"));
    assert!(!is_md_path("/a/README.markdown"));
    assert!(!is_md_path("/a/md"));
    assert!(!is_md_path("/a/.md"));
}

#[test]
fn event_dirs_climb_to_watched_ancestor() {
    let w = state_with(&[("/p", None)]);
    assert_eq!(w.event_dirs_of("/p/src/deep/a.rs"), Some(vec!["/p".to_string()]));
    assert_eq!(w.event_dirs_of("/p/a.rs"), Some(vec!["/p".to_string()]));
    // Outside every watched directory the walk ends at the root.
    assert_eq!(w.event_dirs_of("/q/a.rs"), Some(vec!["/".to_string()]));
    assert_eq!(w.event_dirs_of("/"), None);
}

#[test]
fn event_in_git_dir_concerns_every_dir_of_the_repo() {
    let mut w = state_with(&[("/repo", Some("/repo")), ("/repo/sub", Some("/repo")), ("/other", Some("/other"))]);
    w.git_dirs.insert("/repo/.git".to_string(), "/repo".to_string());
    assert_eq!(
        w.event_dirs_of("/repo/.git/index"),
        Some(vec!["/repo".to_string(), "/repo/sub".to_string()])
    );
}

#[test]
fn process_events_reports_markdown_and_schedules_git_refresh() {
    let mut w = state_with(&[("/p", Some("/p")), ("/n", None)]);
    let events = vec![
        event(FsEventKind::Create, &[("/p/a.md", Some("# A")), ("/p/b.rs", None)]),
        event(FsEventKind::Modify, &[("/p/a.md", Some("# A2")), ("/p/c.md", Some("# C"))]),
        event(FsEventKind::Create, &[("/n/x.txt", None)]),
    ];
    let (results, refresh) = w.process_events(&events, 1000, 1000);
    let texts: Vec<String> = results.iter().map(describe).collect();
    assert_eq!(
        texts,
        vec!["md /p /p/a.md # A".to_string(), "md /p /p/a.md # A2".to_string()]
    );
    assert_eq!(refresh, vec!["/p".to_string(), "/n".to_string()]);
    assert_eq!(w.pending.get("/p"), Some(&2000));
    assert_eq!(w.pending.get("/n"), None);

    // A later change keeps the first due time; removing the known file reports it.
    let (results, refresh) = w.process_events(&vec![event(FsEventKind::Remove, &[("/p/a.md", None)])], 1500, 1000);
    let texts: Vec<String> = results.iter().map(describe).collect();
    assert_eq!(texts, vec!["md-removed /p /p/a.md".to_string()]);
    assert_eq!(refresh, vec!["/p".to_string()]);
    assert_eq!(w.pending.get("/p"), Some(&2000));

    // Removing it again reports nothing: it is no longer known.
    let (results, _) = w.process_events(&vec![event(FsEventKind::Remove, &[("/p/a.md", None)])], 1600, 1000);
    assert!(results.is_empty());
}

#[test]
fn editor_files_are_reported_once_per_batch() {
    let mut w = state_with(&[("/p", None)]);
    w.editor_files = vec!["/p/main.rs".to_string()];
    let events = vec![
        event(FsEventKind::Modify, &[("/p/main.rs", None)]),
        event(FsEventKind::Create, &[("/p/main.rs", None)]),
        event(FsEventKind::Remove, &[("/p/main.rs", None)]),
    ];
    let (results, _) = w.process_events(&events, 0, 10);
    let texts: Vec<String> = results.iter().map(describe).collect();
    assert_eq!(texts, vec!["modified /p/main.rs".to_string()]);
    let (results, _) = w.process_events(&events, 0, 10);
    assert_eq!(results.len(), 1);
}

#[test]
fn other_events_change_nothing() {
    let mut w = state_with(&[("/p", Some("/p"))]);
    let (results, refresh) = w.process_events(&vec![event(FsEventKind::Other, &[("/p/a.md", Some("x"))])], 5, 5);
    assert!(results.is_empty());
    assert!(refresh.is_empty());
    assert_eq!(w.pending.len(), 0);
}

#[test]
fn matured_refreshes_are_taken_once() {
    let mut w = state_with(&[]);
    w.pending.insert("/a".to_string(), 100);
    w.pending.insert("/b".to_string(), 50);
    w.pending.insert("/c".to_string(), 500);
    assert!(w.take_matured(10).is_empty());
    assert_eq!(w.take_matured(100), vec!["/a".to_string(), "/b".to_string()]);
    assert!(w.take_matured(100).is_empty());
    assert_eq!(w.pending.len(), 1);
    assert_eq!(w.take_matured(u64::MAX), vec!["/c".to_string()]);
}

#[test]
fn plan_sync_splits_directories() {
    let w = state_with(&[("/a", None), ("/b", None)]);
    let cwds = vec![
        ("/b".to_string(), false),
        (String::new(), true),
        ("/c".to_string(), true),
        ("/d".to_string(), false),
        ("/c".to_string(), true),
    ];
    let (current, to_remove, to_add) = w.plan_sync(&cwds);
    assert_eq!(current, vec!["/b".to_string(), "/c".to_string()]);
    assert_eq!(to_remove, vec!["/a".to_string()]);
    assert_eq!(to_add, vec!["/c".to_string()]);
}

#[test]
fn removing_a_dir_hands_its_git_watch_over() {
    let mut w = state_with(&[("/repo", Some("/repo")), ("/repo/sub", Some("/repo"))]);
    w.git_dirs.insert("/repo/.git".to_string(), "/repo".to_string());
    let current = vec![("/repo/sub".to_string(), Some("/repo".to_string()))];
    let (unwatch, result) = w.remove_dir("/repo", &current);
    assert_eq!(unwatch, vec!["/repo".to_string()]);
    assert_eq!(describe(&result), "removed /repo");
    assert_eq!(w.git_dirs.get("/repo/.git").map(|s| s.as_str()), Some("/repo/sub"));
    assert!(!w.dirs.contains_key("/repo"));

    let (unwatch, _) = w.remove_dir("/repo/sub", &Vec::new());
    assert_eq!(unwatch, vec!["/repo/sub".to_string(), "/repo/.git".to_string()]);
    assert_eq!(w.git_dirs.len(), 0);
    assert_eq!(w.dirs.len(), 0);
}

#[test]
fn adding_a_dir_watches_its_git_dir_once() {
    let mut w = WorkerState::new();
    let gd = w.git_watch_candidate(Some("/repo"));
    assert_eq!(gd, Some("/repo/.git".to_string()));
    w.record_added("/repo", Some("/repo".to_string()), gd);
    assert_eq!(w.git_dirs.get("/repo/.git").map(|s| s.as_str()), Some("/repo"));
    assert_eq!(w.git_watch_candidate(Some("/repo")), None);
    assert_eq!(w.git_watch_candidate(None), None);
    assert!(w.dirs.get("/repo").unwrap().is_git);
    w.record_added("/plain", None, None);
    assert!(!w.dirs.get("/plain").unwrap().is_git);
}
