use terminal_studio::layout::{
    activate_pane, active_session_index, choose_group_target, close_extra_window_for_workspace,
    host_window_index, insert_pane_entry, is_pane_active_in_any_window, pane_position,
    reorder_tab, route_for_group, session_active_flags, toggle_pane_label, ExtraWindow,
    GroupTarget, PaneContent, PaneEntry, Route, Workspace,
};

fn term(id: u32, sid: u32) -> PaneEntry {
    PaneEntry {
        id,
        content: PaneContent::Terminal(sid),
        last_size: (80, 24),
        labels: Vec::new(),
    }
}

fn notes(id: u32) -> PaneEntry {
    PaneEntry {
        id,
        content: PaneContent::NoteEditor { workspace_id: None },
        last_size: (100, 30),
        labels: Vec::new(),
    }
}

fn ids(panes: &[PaneEntry]) -> Vec<u32> {
    panes.iter().map(|p| p.id).collect()
}

fn window(id: u64, ws: u64, active: Option<u32>) -> ExtraWindow {
    ExtraWindow {
        id,
        workspace_id: ws,
        active_pane_id: active,
    }
}

fn workspace(id: u64, host: Option<u64>) -> Workspace {
    Workspace {
        id,
        name: format!("ws{id}"),
        path: format!("/ws/{id}"),
        color: [1, 2, 3],
        host_window_id: host,
    }
}

#[test]
fn pane_position_finds_first() {
    let panes = vec![term(1, 10), term(2, 20), term(2, 30)];
    assert_eq!(pane_position(&panes, 2), Some(1));
    assert_eq!(pane_position(&panes, 9), None);
}

#[test]
fn insert_pane_entry_positions() {
    let mut panes = vec![term(1, 1), term(2, 2)];
    insert_pane_entry(&mut panes, term(3, 3), Some(1));
    assert_eq!(ids(&panes), vec![1, 3, 2]);
    insert_pane_entry(&mut panes, term(4, 4), Some(99));
    assert_eq!(ids(&panes), vec![1, 3, 2, 4]);
    insert_pane_entry(&mut panes, term(5, 5), None);
    assert_eq!(ids(&panes), vec![1, 3, 2, 4, 5]);
    insert_pane_entry(&mut panes, term(6, 6), Some(0));
    assert_eq!(ids(&panes), vec![6, 1, 3, 2, 4, 5]);
}

#[test]
fn reorder_tab_moves_right_and_left() {
    let mut panes = vec![term(1, 1), term(2, 2), term(3, 3), term(4, 4)];
    // Dragging tab 1 to the slot before tab 3.
    reorder_tab(&mut panes, 1, 2);
    assert_eq!(ids(&panes), vec![2, 1, 3, 4]);
    // Dragging tab 4 to the front.
    reorder_tab(&mut panes, 4, 0);
    assert_eq!(ids(&panes), vec![4, 2, 1, 3]);
    // Dragging past the end puts the tab last.
    reorder_tab(&mut panes, 4, 100);
    assert_eq!(ids(&panes), vec![2, 1, 3, 4]);
}

#[test]
fn reorder_tab_unknown_pane_is_noop() {
    let mut panes = vec![term(1, 1), term(2, 2)];
    reorder_tab(&mut panes, 7, 0);
    assert_eq!(ids(&panes), vec![1, 2]);
}

#[test]
fn toggle_pane_label_twice_restores() {
    let mut panes = vec![term(1, 1), term(2, 2)];
    panes[1].labels = vec![5, 6];
    assert!(toggle_pane_label(&mut panes, 2, 7));
    assert_eq!(panes[1].labels, vec![5, 6, 7]);
    assert!(toggle_pane_label(&mut panes, 2, 7));
    assert_eq!(panes[1].labels, vec![5, 6]);
    assert!(toggle_pane_label(&mut panes, 2, 5));
    assert_eq!(panes[1].labels, vec![6]);
    assert!(!toggle_pane_label(&mut panes, 9, 5));
    assert!(panes[0].labels.is_empty());
}

#[test]
fn active_session_index_and_flags() {
    let sessions = vec![10, 20, 30];
    assert_eq!(active_session_index(&sessions, Some(20)), Some(1));
    assert_eq!(active_session_index(&sessions, Some(99)), None);
    assert_eq!(active_session_index(&sessions, None), None);
    assert_eq!(
        session_active_flags(&sessions, Some(30)),
        vec![false, false, true]
    );
    assert_eq!(
        session_active_flags(&sessions, None),
        vec![false, false, false]
    );
}

#[test]
fn pane_active_in_main_or_extra_window() {
    let windows = vec![window(1, 100, Some(7)), window(2, 200, None)];
    assert!(is_pane_active_in_any_window(Some(3), &windows, 3));
    assert!(is_pane_active_in_any_window(Some(3), &windows, 7));
    assert!(!is_pane_active_in_any_window(Some(3), &windows, 8));
    assert!(!is_pane_active_in_any_window(None, &Vec::new(), 1));
}

#[test]
fn activate_pane_sets_session_for_terminals() {
    let panes = vec![term(1, 11), notes(2)];
    let mut active_pane = None;
    let mut active_session = Some(99);
    assert!(activate_pane(&panes, 1, &mut active_pane, &mut active_session));
    assert_eq!(active_pane, Some(1));
    assert_eq!(active_session, Some(11));
    assert!(!activate_pane(&panes, 2, &mut active_pane, &mut active_session));
    assert_eq!(active_pane, Some(2));
    assert_eq!(active_session, Some(11));
    assert!(!activate_pane(&panes, 5, &mut active_pane, &mut active_session));
    assert_eq!(active_pane, Some(5));
}

#[test]
fn choose_group_target_prefers_last_pane() {
    let groups = vec![(1, Some(10)), (2, None), (3, Some(10)), (4, Some(20))];
    assert!(matches!(
        choose_group_target(&groups, Some(10), Some(3)),
        GroupTarget::Activate(3)
    ));
    assert!(matches!(
        choose_group_target(&groups, Some(10), Some(4)),
        GroupTarget::Activate(1)
    ));
    assert!(matches!(
        choose_group_target(&groups, None, None),
        GroupTarget::Activate(2)
    ));
    assert!(matches!(
        choose_group_target(&groups, Some(30), Some(1)),
        GroupTarget::Spawn
    ));
}

#[test]
fn route_for_group_cases() {
    let windows = vec![window(5, 100, None), window(6, 200, None), window(7, 100, None)];
    assert_eq!(host_window_index(&windows, 100), Some(0));
    assert_eq!(host_window_index(&windows, 300), None);
    assert!(matches!(route_for_group(&windows, Some(100), None), Route::FocusExtra(0)));
    assert!(matches!(route_for_group(&windows, Some(100), Some(5)), Route::Local));
    assert!(matches!(route_for_group(&windows, Some(200), Some(5)), Route::FocusExtra(1)));
    assert!(matches!(route_for_group(&windows, Some(300), Some(5)), Route::FocusMain));
    assert!(matches!(route_for_group(&windows, Some(300), None), Route::Local));
    assert!(matches!(route_for_group(&windows, None, Some(6)), Route::FocusMain));
    assert!(matches!(route_for_group(&windows, None, None), Route::Local));
}

#[test]
fn close_extra_window_releases_workspace() {
    let mut windows = vec![window(5, 100, None), window(6, 200, None)];
    let mut workspaces = vec![workspace(200, Some(6)), workspace(100, Some(5)), workspace(100, Some(5))];
    close_extra_window_for_workspace(&mut windows, &mut workspaces, 100);
    assert_eq!(windows.len(), 1);
    assert_eq!(windows[0].id, 6);
    assert_eq!(workspaces[0].host_window_id, Some(6));
    assert_eq!(workspaces[1].host_window_id, None);
    assert_eq!(workspaces[2].host_window_id, Some(5));
    close_extra_window_for_workspace(&mut windows, &mut workspaces, 999);
    assert_eq!(windows.len(), 1);
}
