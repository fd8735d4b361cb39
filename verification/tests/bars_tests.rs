use terminal_studio::bars::{
    info_bar_action, info_bar_segments, shows_save_workspace, status_bar_git_part,
    status_bar_right_parts, InfoBarPosition, StatusBarData,
};

#[test]
fn info_bar_position_default_is_top() {
    assert_eq!(InfoBarPosition::default(), InfoBarPosition::Top);
}

#[test]
fn status_bar_data_default_fields() {
    let data = StatusBarData {
        cwd: "/home/user/project".to_string(),
        git_branch: "main".to_string(),
        git_diff_count: 3,
        shell_name: "bash".to_string(),
        cols: 120,
        rows: 40,
        zoomed: false,
        unsaved_folder: false,
    };
    assert_eq!(data.cols, 120);
    assert_eq!(data.rows, 40);
    assert_eq!(data.git_branch, "main");
    assert!(!data.zoomed);
    assert!(!data.unsaved_folder);
}

#[test]
fn status_bar_data_empty_cwd() {
    let data = StatusBarData {
        cwd: String::new(),
        git_branch: String::new(),
        git_diff_count: 0,
        shell_name: "powershell".to_string(),
        cols: 80,
        rows: 24,
        zoomed: true,
        unsaved_folder: false,
    };
    assert!(data.cwd.is_empty());
    assert!(data.zoomed);
}

#[test]
fn status_bar_data_unsaved_folder() {
    let data = StatusBarData {
        cwd: "/home/user/new-project".to_string(),
        git_branch: String::new(),
        git_diff_count: 0,
        shell_name: "bash".to_string(),
        cols: 80,
        rows: 24,
        zoomed: false,
        unsaved_folder: true,
    };
    assert!(data.unsaved_folder);
    assert!(!data.cwd.is_empty());
}

#[test]
fn status_bar_data_unsaved_folder_empty_cwd() {
    let data = StatusBarData {
        cwd: String::new(),
        git_branch: String::new(),
        git_diff_count: 0,
        shell_name: "bash".to_string(),
        cols: 80,
        rows: 24,
        zoomed: false,
        unsaved_folder: true,
    };
    assert!(data.unsaved_folder);
    assert!(data.cwd.is_empty());
}

// ---- further cases ----

fn data(cwd: &str, branch: &str, count: usize, zoomed: bool, unsaved: bool) -> StatusBarData {
    StatusBarData {
        cwd: cwd.to_string(),
        git_branch: branch.to_string(),
        git_diff_count: count,
        shell_name: "bash".to_string(),
        cols: 120,
        rows: 40,
        zoomed,
        unsaved_folder: unsaved,
    }
}

#[test]
fn status_bar_right_parts_texts() {
    assert_eq!(
        status_bar_right_parts(&data("/p", "", 0, false, false)),
        vec!["bash".to_string(), "120\u{00d7}40".to_string()]
    );
    assert_eq!(
        status_bar_right_parts(&data("/p", "", 0, true, false)),
        vec![
            "\u{26F6} ZOOM".to_string(),
            "bash".to_string(),
            "120\u{00d7}40".to_string()
        ]
    );
}

#[test]
fn status_bar_right_parts_zero_dimensions() {
    let mut d = data("/p", "", 0, false, false);
    d.cols = 0;
    d.rows = 65535;
    assert_eq!(status_bar_right_parts(&d)[1], "0\u{00d7}65535");
}

#[test]
fn status_bar_git_part_texts() {
    assert_eq!(status_bar_git_part(&data("/p", "", 5, false, false)), None);
    assert_eq!(
        status_bar_git_part(&data("/p", "main", 0, false, false)),
        Some(("\u{2387} main".to_string(), None))
    );
    assert_eq!(
        status_bar_git_part(&data("/p", "dev", 12, false, false)),
        Some(("\u{2387} dev".to_string(), Some(" +12".to_string())))
    );
}

#[test]
fn save_workspace_needs_unsaved_folder_and_cwd() {
    assert!(shows_save_workspace(&data("/p", "", 0, false, true)));
    assert!(!shows_save_workspace(&data("", "", 0, false, true)));
    assert!(!shows_save_workspace(&data("/p", "", 0, false, false)));
}

#[test]
fn info_bar_action_buttons() {
    assert_eq!(info_bar_action(InfoBarPosition::Top, false, false), None);
    assert_eq!(
        info_bar_action(InfoBarPosition::Top, true, false),
        Some(InfoBarPosition::Bottom)
    );
    assert_eq!(
        info_bar_action(InfoBarPosition::Bottom, true, false),
        Some(InfoBarPosition::Top)
    );
    assert_eq!(
        info_bar_action(InfoBarPosition::Bottom, true, true),
        Some(InfoBarPosition::Hidden)
    );
    assert_eq!(
        info_bar_action(InfoBarPosition::Top, false, true),
        Some(InfoBarPosition::Hidden)
    );
}

#[test]
fn info_bar_toggle_twice_returns() {
    let p = info_bar_action(InfoBarPosition::Top, true, false).unwrap();
    assert_eq!(info_bar_action(p, true, false), Some(InfoBarPosition::Top));
}

#[test]
fn info_bar_segments_texts() {
    assert_eq!(
        info_bar_segments(Some("vim"), Some("WS"), Some("main")),
        vec![
            "vim".to_string(),
            " \u{b7} ".to_string(),
            "WS".to_string(),
            "  \u{2387} main".to_string()
        ]
    );
    assert_eq!(info_bar_segments(None, Some("WS"), Some("")), vec!["WS".to_string()]);
    assert!(info_bar_segments(None, None, None).is_empty());
}
