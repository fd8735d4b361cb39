use terminal_studio::layout::{PaneContent, PaneEntry, Workspace};
use terminal_studio::panes::{
    close_all_message, close_all_panes, close_all_panes_of, close_all_title, close_panes,
    ensure_terminal_pane, filter_display_name, move_pane_to, note_pane_of, open_pane, pane_cwd,
    pane_group, register_session, saved_pane_index, track_active_pane_group, workspace_path,
    writes_pane, GroupMemory,
};

fn term(id: u32, sid: u32) -> PaneEntry {
    PaneEntry {
        id,
        content: PaneContent::Terminal(sid),
        last_size: (80, 24),
        labels: Vec::new(),
    }
}

fn notes(id: u32) -> PaneEntry {
    PaneEntry {
        id,
        content: PaneContent::NoteEditor { workspace_id: None },
        last_size: (80, 24),
        labels: Vec::new(),
    }
}

fn ids(panes: &[PaneEntry]) -> Vec<u32> {
    panes.iter().map(|p| p.id).collect()
}

fn ws(id: u64, path: &str) -> Workspace {
    Workspace {
        id,
        name: format!("w{id}"),
        path: path.to_string(),
        color: [0, 0, 0],
        host_window_id: None,
    }
}

#[test]
fn ensure_terminal_pane_adds_only_when_missing() {
    let mut panes = vec![term(1, 10)];
    let mut next = 5;
    assert_eq!(ensure_terminal_pane(&mut panes, &mut next, 10, (100, 50)), None);
    assert_eq!(next, 5);
    assert_eq!(ensure_terminal_pane(&mut panes, &mut next, 11, (100, 50)), Some(5));
    assert_eq!(next, 6);
    assert_eq!(ids(&panes), vec![1, 5]);
    assert_eq!(panes[1].last_size, (100, 50));
    assert!(matches!(panes[1].content, PaneContent::Terminal(11)));
}

#[test]
fn register_session_first_and_later() {
    let mut sessions = Vec::new();
    let mut active_session = None;
    let mut panes = Vec::new();
    let mut next = 1;
    let mut active_pane = None;
    register_session(&mut sessions, &mut active_session, &mut panes, &mut next, &mut active_pane, 7, (90, 30));
    assert_eq!(sessions, vec![7]);
    assert_eq!(active_session, Some(7));
    assert_eq!(ids(&panes), vec![1]);
    assert_eq!(active_pane, Some(1));
    register_session(&mut sessions, &mut active_session, &mut panes, &mut next, &mut active_pane, 8, (90, 30));
    assert_eq!(sessions, vec![7, 8]);
    assert_eq!(active_session, Some(7));
    assert_eq!(ids(&panes), vec![1]);
    assert_eq!(next, 2);
}

#[test]
fn close_panes_moves_active_and_ends_sessions() {
    let mut panes = vec![term(1, 10), notes(2), term(3, 30), term(4, 40)];
    let mut active_pane = Some(3);
    let mut zoomed = Some(3);
    let mut sessions = vec![10, 30, 40];
    let mut active_session = Some(30);
    let mut next = 9;
    let killed = close_panes(
        &mut panes,
        &mut active_pane,
        &mut zoomed,
        &mut sessions,
        &mut active_session,
        &mut next,
        &vec![3, 2],
    );
    assert_eq!(killed, vec![30]);
    assert_eq!(ids(&panes), vec![1, 4]);
    assert_eq!(active_pane, Some(4));
    assert_eq!(zoomed, None);
    assert_eq!(sessions, vec![10, 40]);
    assert_eq!(active_session, Some(10));
    assert_eq!(next, 9);
}

#[test]
fn close_last_pane_reopens_active_session() {
    let mut panes = vec![term(1, 10)];
    let mut active_pane = Some(1);
    let mut zoomed = None;
    let mut sessions = vec![10, 20];
    let mut active_session = Some(10);
    let mut next = 9;
    let killed = close_panes(
        &mut panes,
        &mut active_pane,
        &mut zoomed,
        &mut sessions,
        &mut active_session,
        &mut next,
        &vec![1],
    );
    assert_eq!(killed, vec![10]);
    assert_eq!(sessions, vec![20]);
    assert_eq!(active_session, Some(20));
    assert_eq!(ids(&panes), vec![9]);
    assert!(matches!(panes[0].content, PaneContent::Terminal(20)));
    assert_eq!(panes[0].last_size, (0, 0));
    assert_eq!(active_pane, Some(9));
    assert_eq!(next, 10);
}

#[test]
fn close_everything_leaves_nothing() {
    let mut panes = vec![term(1, 10)];
    let mut active_pane = Some(1);
    let mut zoomed = Some(7);
    let mut sessions = vec![10];
    let mut active_session = Some(10);
    let mut next = 2;
    close_panes(
        &mut panes,
        &mut active_pane,
        &mut zoomed,
        &mut sessions,
        &mut active_session,
        &mut next,
        &vec![1],
    );
    assert!(panes.is_empty());
    assert_eq!(active_pane, None);
    assert_eq!(zoomed, Some(7));
    assert!(sessions.is_empty());
    assert_eq!(active_session, None);
}

#[test]
fn pane_groups() {
    assert_eq!(pane_group(&PaneContent::Terminal(1), Some("/w"), Some(4)), Some(4));
    assert_eq!(pane_group(&PaneContent::Terminal(1), Some(""), Some(4)), None);
    assert_eq!(pane_group(&PaneContent::Terminal(1), None, Some(4)), None);
    let ed = PaneContent::FileEditor {
        path: "/w/a".into(),
        dirty: false,
        save_error: false,
        workspace_id: Some(2),
    };
    assert_eq!(pane_group(&ed, None, Some(4)), Some(2));
    assert_eq!(pane_group(&PaneContent::FileDiff { path: "/w/a".into() }, None, Some(4)), Some(4));
    assert_eq!(
        pane_group(&PaneContent::DeferredTerminal { cwd: None, saved_title: None }, None, Some(4)),
        None
    );
}

#[test]
fn pane_directories() {
    let workspaces = vec![ws(1, "/ws/one"), ws(2, "/ws/two")];
    assert_eq!(workspace_path(&workspaces, Some(2)), Some("/ws/two".to_string()));
    assert_eq!(workspace_path(&workspaces, Some(3)), None);
    assert_eq!(workspace_path(&workspaces, None), None);
    assert_eq!(
        pane_cwd(&PaneContent::Terminal(1), Some("/home"), &workspaces, None),
        Some("/home".to_string())
    );
    assert_eq!(pane_cwd(&PaneContent::Terminal(1), Some(""), &workspaces, None), None);
    let ed = PaneContent::FileEditor {
        path: "/x/y/z.rs".into(),
        dirty: false,
        save_error: false,
        workspace_id: Some(9),
    };
    assert_eq!(pane_cwd(&ed, None, &workspaces, None), Some("/x/y".to_string()));
    let ed1 = PaneContent::FileEditor {
        path: "/x/y/z.rs".into(),
        dirty: false,
        save_error: false,
        workspace_id: Some(1),
    };
    assert_eq!(pane_cwd(&ed1, None, &workspaces, None), Some("/ws/one".to_string()));
    let diff = PaneContent::FileDiff { path: "/r/f.rs".into() };
    assert_eq!(pane_cwd(&diff, None, &workspaces, Some("/r")), Some("/r".to_string()));
    assert_eq!(pane_cwd(&diff, None, &workspaces, None), Some("/r".to_string()));
    assert_eq!(
        pane_cwd(&PaneContent::NoteEditor { workspace_id: Some(2) }, None, &workspaces, None),
        Some("/ws/two".to_string())
    );
    assert_eq!(
        pane_cwd(&PaneContent::ConflictResolver { path: "/c/d.txt".into() }, None, &workspaces, None),
        Some("/c".to_string())
    );
}

#[test]
fn group_memory_recall_after_remember() {
    let mut m = GroupMemory::new();
    assert_eq!(m.recall(Some(1)), None);
    m.remember(Some(1), 10);
    m.remember(None, 20);
    m.remember(Some(1), 11);
    assert_eq!(m.recall(Some(1)), Some(11));
    assert_eq!(m.recall(None), Some(20));
    assert_eq!(m.recall(Some(2)), None);
    track_active_pane_group(&mut m, Some(30), Some(Some(2)), Some(2));
    assert_eq!(m.recall(Some(2)), Some(30));
    track_active_pane_group(&mut m, Some(31), Some(Some(3)), Some(2));
    assert_eq!(m.recall(Some(2)), Some(30));
    track_active_pane_group(&mut m, Some(32), None, Some(2));
    assert_eq!(m.recall(Some(2)), Some(30));
}

#[test]
fn close_all_of_a_workspace() {
    let groups = vec![(1, Some(5)), (2, None), (3, Some(5))];
    assert_eq!(close_all_panes_of(&groups, Some(Some(5))), vec![1, 3]);
    assert_eq!(close_all_panes_of(&groups, Some(None)), vec![2]);
    assert_eq!(close_all_panes_of(&groups, None), vec![1, 2, 3]);

    let mut panes = vec![term(1, 10), notes(2), term(3, 30)];
    let mut active_pane = Some(3);
    let mut sessions = vec![10, 30, 50];
    let mut active_session = Some(10);
    let mut next = 7;
    let killed = close_all_panes(
        &mut panes,
        &mut active_pane,
        &mut sessions,
        &mut active_session,
        &mut next,
        &vec![1, 3],
    );
    assert_eq!(killed, vec![10, 30]);
    assert_eq!(ids(&panes), vec![2]);
    assert_eq!(active_pane, Some(2));
    assert_eq!(sessions, vec![50]);
    // The active pane shows notes: the first remaining session becomes active.
    assert_eq!(active_session, Some(50));

    let workspaces = vec![ws(5, "/w")];
    assert_eq!(filter_display_name(&workspaces, Some(5)), "w5");
    assert_eq!(filter_display_name(&workspaces, Some(6)), "Unknown");
    assert_eq!(filter_display_name(&workspaces, None), "Other");
    assert_eq!(close_all_title(Some("w5")), "Close \"w5\" Sessions");
    assert_eq!(close_all_title(None), "Close All Sessions");
    assert_eq!(close_all_message(1), "This will close 1 session. Are you sure?");
    assert_eq!(close_all_message(3), "This will close 3 sessions. Are you sure?");
}

#[test]
fn close_all_reopens_a_pane_for_the_remaining_session() {
    let mut panes = vec![term(1, 10)];
    let mut active_pane = Some(1);
    let mut sessions = vec![10, 20];
    let mut active_session = Some(10);
    let mut next = 4;
    close_all_panes(
        &mut panes,
        &mut active_pane,
        &mut sessions,
        &mut active_session,
        &mut next,
        &vec![1],
    );
    assert_eq!(sessions, vec![20]);
    assert_eq!(active_session, Some(20));
    assert_eq!(ids(&panes), vec![4]);
    assert_eq!(active_pane, Some(4));
    assert_eq!(next, 5);
}

#[test]
fn dropping_on_the_tab_bar() {
    let mut panes = vec![term(1, 10), term(2, 20), term(3, 30)];
    move_pane_to(&mut panes, 1, 1);
    assert_eq!(ids(&panes), vec![2, 1, 3]);
    move_pane_to(&mut panes, 2, 99);
    assert_eq!(ids(&panes), vec![1, 3, 2]);
    move_pane_to(&mut panes, 9, 0);
    assert_eq!(ids(&panes), vec![1, 3, 2]);

    let mut with_notes = vec![term(1, 10), notes(2)];
    assert_eq!(note_pane_of(&with_notes, 0), Some(2));
    assert_eq!(note_pane_of(&with_notes, 4), None);
    let mut next = 8;
    let id = open_pane(
        &mut with_notes,
        &mut next,
        PaneContent::NoteEditor { workspace_id: Some(4) },
        Some(1),
    );
    assert_eq!(id, 8);
    assert_eq!(next, 9);
    assert_eq!(ids(&with_notes), vec![1, 8, 2]);
    assert_eq!(note_pane_of(&with_notes, 4), Some(8));
}

fn pane(id: u32, content: PaneContent) -> PaneEntry {
    PaneEntry { id, content, last_size: (80, 24), labels: Vec::new() }
}

#[test]
fn saved_layout_numbers_all_but_diff_panes() {
    let panes = vec![
        term(10, 1),
        pane(11, PaneContent::FileDiff { path: "/a".into() }),
        pane(12, PaneContent::ConflictResolver { path: "/b".into() }),
        notes(13),
    ];
    assert_eq!(saved_pane_index(&panes, 10), Some(0));
    assert_eq!(saved_pane_index(&panes, 11), None);
    assert_eq!(saved_pane_index(&panes, 12), Some(1));
    assert_eq!(saved_pane_index(&panes, 13), Some(2));
    assert_eq!(saved_pane_index(&panes, 99), None);
}

#[test]
fn saved_layout_writes_panes_it_can_restore() {
    assert!(writes_pane(&PaneContent::Terminal(1), true));
    assert!(!writes_pane(&PaneContent::Terminal(1), false));
    assert!(!writes_pane(&PaneContent::FileDiff { path: "/a".into() }, true));
    assert!(!writes_pane(&PaneContent::ConflictResolver { path: "/a".into() }, true));
    assert!(writes_pane(&PaneContent::NoteEditor { workspace_id: None }, false));
}
