use terminal_studio::layout::{ExtraWindow, PaneContent};
use terminal_studio::sidebar::{
    in_other_window, passes_workspace_filter, row_click, row_hover_text, session_row_label,
    shows_other_group, workspace_order, workspace_visible, RowClick,
};
use terminal_studio::titlebar::{
    close_button_action, monitor_action, repaint_on_focus, title_needs_update, update_button_label, update_click,
    validated_right_tab, window_title, CloseAction, MonitorAction, RightTab, UpdateClick, UpdateOffer,
};

#[test]
fn session_row_labels() {
    assert_eq!(
        session_row_label(&PaneContent::Terminal(1), Some("vim"), None),
        ("vim".to_string(), false)
    );
    assert_eq!(
        session_row_label(&PaneContent::Terminal(1), None, None),
        ("(missing)".to_string(), true)
    );
    let restored = PaneContent::DeferredTerminal {
        cwd: Some("/home/u/proj".into()),
        saved_title: Some(String::new()),
    };
    assert_eq!(session_row_label(&restored, None, None), ("proj".to_string(), true));
    assert_eq!(session_row_label(&restored, None, Some("WS")), ("WS".to_string(), true));
    let bare = PaneContent::DeferredTerminal {
        cwd: None,
        saved_title: None,
    };
    assert_eq!(session_row_label(&bare, None, None), ("(restored)".to_string(), true));
    let ed = PaneContent::FileEditor {
        path: "/a/b.rs".into(),
        dirty: true,
        save_error: false,
        workspace_id: None,
    };
    assert_eq!(session_row_label(&ed, None, None), ("b.rs".to_string(), false));
    let root = PaneContent::FileEditor {
        path: "/".into(),
        dirty: false,
        save_error: false,
        workspace_id: None,
    };
    assert_eq!(session_row_label(&root, None, None), ("/".to_string(), false));
    assert_eq!(
        session_row_label(&PaneContent::FileDiff { path: "/a/c.rs".into() }, None, None),
        ("\u{21c4} c.rs".to_string(), false)
    );
    assert_eq!(
        session_row_label(&PaneContent::ConflictResolver { path: "/".into() }, None, None),
        ("Conflicts".to_string(), false)
    );
}

#[test]
fn filters_and_windows() {
    assert!(passes_workspace_filter(None, Some(3)));
    assert!(passes_workspace_filter(Some(Some(3)), Some(3)));
    assert!(!passes_workspace_filter(Some(Some(3)), None));
    assert!(passes_workspace_filter(Some(None), None));
    let windows = vec![
        ExtraWindow { id: 10, workspace_id: 5, active_pane_id: None },
        ExtraWindow { id: 11, workspace_id: 5, active_pane_id: None },
    ];
    assert!(in_other_window(&windows, Some(5), None));
    assert!(in_other_window(&windows, Some(5), Some(10)));
    let only_here = vec![ExtraWindow { id: 10, workspace_id: 5, active_pane_id: None }];
    assert!(!in_other_window(&only_here, Some(5), Some(10)));
    assert!(in_other_window(&windows, Some(6), Some(10)));
    assert!(!in_other_window(&windows, Some(6), None));
    assert!(!in_other_window(&windows, None, Some(10)));
    assert_eq!(row_hover_text("vim", true), "vim (switch window)");
    assert_eq!(row_hover_text("vim", false), "vim");
    assert_eq!(row_click(true, true), RowClick::Quit);
    assert_eq!(row_click(false, true), RowClick::Select);
    assert_eq!(row_click(false, false), RowClick::Nothing);
}

#[test]
fn workspace_cards_order_and_filter() {
    let names: Vec<String> = ["beta", "Alpha", "gamma", "alpha", "Delta"].iter().map(|s| s.to_string()).collect();
    let active = vec![false, false, true, false, true];
    assert_eq!(workspace_order(&names, &active), vec![4, 2, 1, 3, 0]);
    assert!(workspace_order(&Vec::new(), &Vec::new()).is_empty());
    assert!(workspace_visible("My Project", "proj"));
    assert!(workspace_visible("My Project", ""));
    assert!(!workspace_visible("My Project", "xyz"));
    assert!(shows_other_group(true, ""));
    assert!(!shows_other_group(true, "a"));
    assert!(!shows_other_group(false, ""));
}

#[test]
fn title_bar_decisions() {
    assert_eq!(window_title(Some("Work")), "Terminal Studio \u{2014} Work");
    assert_eq!(window_title(None), "Terminal Studio");
    assert!(title_needs_update(None, "a"));
    assert!(!title_needs_update(Some("a"), "a"));
    assert!(title_needs_update(Some("a"), "b"));
    assert!(repaint_on_focus(true, false));
    assert!(!repaint_on_focus(true, true));
    assert_eq!(close_button_action(true, true), CloseAction::CloseWindow);
    assert_eq!(close_button_action(false, false), CloseAction::QuitNow);
    assert_eq!(close_button_action(false, true), CloseAction::ConfirmQuit);
    assert!(matches!(validated_right_tab(RightTab::GitDiff, false, true), RightTab::Directory));
    assert!(matches!(validated_right_tab(RightTab::GitDiff, true, false), RightTab::GitDiff));
    assert!(matches!(
        validated_right_tab(RightTab::Markdown("/a.md".into()), true, false),
        RightTab::Directory
    ));
    match validated_right_tab(RightTab::Markdown("/a.md".into()), false, true) {
        RightTab::Markdown(p) => assert_eq!(p, "/a.md"),
        _ => panic!("markdown tab dropped"),
    }
    let offer = UpdateOffer::Available { version: "1.2.3".into() };
    assert_eq!(update_button_label(&offer), Some("\u{2B06} Update v1.2.3".to_string()));
    assert_eq!(update_click(&offer), UpdateClick::OpenSettings);
    assert_eq!(
        update_button_label(&UpdateOffer::RestartRequired),
        Some("Restart to update".to_string())
    );
    assert_eq!(update_click(&UpdateOffer::RestartRequired), UpdateClick::Restart);
    assert_eq!(update_button_label(&UpdateOffer::NoUpdate), None);
    assert_eq!(update_click(&UpdateOffer::NoUpdate), UpdateClick::Nothing);
}

#[test]
fn monitor_setting_starts_or_stops_the_monitor() {
    assert_eq!(monitor_action(true, false), MonitorAction::Start);
    assert_eq!(monitor_action(true, true), MonitorAction::Keep);
    assert_eq!(monitor_action(false, true), MonitorAction::Stop);
    assert_eq!(monitor_action(false, false), MonitorAction::Stop);
}
