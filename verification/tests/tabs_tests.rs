use terminal_studio::layout::{PaneContent, PaneEntry, Workspace};
use terminal_studio::tabs::{
    accepts_drop, drop_marker_on_right, rename_title, tab_click, DragKind, TabClick,
    configured_shell_index, duplicate_command, duplicate_insert_position, find_workspace,
    info_bar_title, palette_search_root, replay_command_line, shortcut_tooltip, spawn_size,
    switcher_entry, tab_display_text, tab_tooltip_text, ws_color_for_pane,
};

fn pane(id: u32, content: PaneContent, size: (u16, u16)) -> PaneEntry {
    PaneEntry {
        id,
        content,
        last_size: size,
        labels: Vec::new(),
    }
}

fn editor(path: &str, dirty: bool, save_error: bool, ws: Option<u64>) -> PaneContent {
    PaneContent::FileEditor {
        path: path.to_string(),
        dirty,
        save_error,
        workspace_id: ws,
    }
}

#[test]
fn tab_text_for_terminals() {
    let c = PaneContent::Terminal(4);
    assert_eq!(tab_display_text(&c, Some("vim a.txt"), None), "vim a.txt");
    assert_eq!(tab_display_text(&c, None, None), "Terminal 4");
}

#[test]
fn tab_text_for_deferred_terminals() {
    let saved = PaneContent::DeferredTerminal {
        cwd: Some("/home/u/proj".into()),
        saved_title: Some("build".into()),
    };
    assert_eq!(tab_display_text(&saved, None, None), "build");
    let unsaved = PaneContent::DeferredTerminal {
        cwd: Some("/home/u/proj".into()),
        saved_title: Some(String::new()),
    };
    assert_eq!(tab_display_text(&unsaved, None, None), "proj");
    assert_eq!(tab_display_text(&unsaved, None, Some("Proj WS")), "Proj WS");
    let nothing = PaneContent::DeferredTerminal {
        cwd: None,
        saved_title: None,
    };
    assert_eq!(tab_display_text(&nothing, None, Some("WS")), "");
}

#[test]
fn tab_text_for_files() {
    assert_eq!(tab_display_text(&editor("/a/b.rs", false, false, None), None, None), "b.rs");
    assert_eq!(tab_display_text(&editor("/a/b.rs", true, false, None), None, None), "* b.rs");
    assert_eq!(tab_display_text(&editor("/a/b.rs", true, true, None), None, None), "! b.rs");
    let diff = PaneContent::FileDiff { path: "/a/c.rs".into() };
    assert_eq!(tab_display_text(&diff, None, None), "\u{21c4} c.rs");
    let notes = PaneContent::NoteEditor { workspace_id: None };
    assert_eq!(tab_display_text(&notes, None, None), "Notes");
    let conflicts = PaneContent::ConflictResolver { path: "/r/m.txt".into() };
    assert_eq!(tab_display_text(&conflicts, None, None), "\u{26a0} m.txt");
    let root = PaneContent::ConflictResolver { path: "/".into() };
    assert_eq!(tab_display_text(&root, None, None), "Conflicts");
}

#[test]
fn tooltip_texts() {
    let t = PaneContent::Terminal(2);
    assert_eq!(tab_tooltip_text(&t, None, None), "Terminal 2");
    assert_eq!(
        tab_tooltip_text(&t, Some(("vim", "/home/u")), Some("WS")),
        "vim\n/home/u\nWS"
    );
    assert_eq!(tab_tooltip_text(&t, Some(("vim", "")), Some("WS")), "vim");
    let e = editor("/a/b.rs", false, false, None);
    assert_eq!(tab_tooltip_text(&e, None, None), "/a/b.rs");
    let d = PaneContent::FileDiff { path: "/a/c.rs".into() };
    assert_eq!(tab_tooltip_text(&d, None, None), "Diff: /a/c.rs");
    let r = PaneContent::ConflictResolver { path: "/r".into() };
    assert_eq!(tab_tooltip_text(&r, None, None), "Conflicts: /r");
    let def = PaneContent::DeferredTerminal {
        cwd: Some("/x".into()),
        saved_title: None,
    };
    assert_eq!(tab_tooltip_text(&def, None, None), "Terminal\n/x");
}

#[test]
fn info_bar_titles() {
    assert_eq!(
        info_bar_title(&PaneContent::Terminal(1), Some("zsh")),
        Some("zsh".to_string())
    );
    assert_eq!(info_bar_title(&PaneContent::Terminal(1), None), None);
    assert_eq!(
        info_bar_title(&editor("/a/b.rs", false, false, None), None),
        Some("b.rs".to_string())
    );
    assert_eq!(
        info_bar_title(&editor("/", false, false, None), None),
        Some("Editor".to_string())
    );
    assert_eq!(
        info_bar_title(&PaneContent::FileDiff { path: "/q/z.rs".into() }, None),
        Some("Diff: z.rs".to_string())
    );
    assert_eq!(
        info_bar_title(&PaneContent::ConflictResolver { path: "/q".into() }, None),
        Some("Conflict Resolver".to_string())
    );
    assert_eq!(
        info_bar_title(
            &PaneContent::DeferredTerminal {
                cwd: None,
                saved_title: None
            },
            None
        ),
        None
    );
}

#[test]
fn switcher_entries() {
    let t = PaneContent::Terminal(3);
    assert_eq!(
        switcher_entry(&t, Some(("", "~/p")), "unused"),
        Some(("Session 3".to_string(), "~/p".to_string()))
    );
    assert_eq!(
        switcher_entry(&t, Some(("htop", "~/p")), "unused"),
        Some(("htop".to_string(), "~/p".to_string()))
    );
    assert_eq!(switcher_entry(&t, None, "x"), None);
    assert_eq!(
        switcher_entry(&editor("/a/b.rs", false, false, None), None, "/a"),
        Some(("b.rs".to_string(), "/a".to_string()))
    );
    assert_eq!(
        switcher_entry(&PaneContent::FileDiff { path: "/a/d.rs".into() }, None, "/a"),
        Some(("diff: d.rs".to_string(), "/a".to_string()))
    );
    assert_eq!(
        switcher_entry(&PaneContent::NoteEditor { workspace_id: Some(1) }, None, "/a"),
        Some(("Notes".to_string(), String::new()))
    );
    assert_eq!(
        switcher_entry(&PaneContent::ConflictResolver { path: "/a".into() }, None, "/a"),
        None
    );
}

#[test]
fn workspace_colours() {
    let workspaces = vec![
        Workspace {
            id: 1,
            name: "a".into(),
            path: "/a".into(),
            color: [10, 20, 30],
            host_window_id: None,
        },
        Workspace {
            id: 2,
            name: "b".into(),
            path: "/b".into(),
            color: [40, 50, 60],
            host_window_id: None,
        },
    ];
    assert_eq!(find_workspace(&workspaces, 2), Some(1));
    assert_eq!(find_workspace(&workspaces, 3), None);
    assert_eq!(
        ws_color_for_pane(&editor("/b/x", false, false, Some(2)), &workspaces, None, None),
        Some([40, 50, 60])
    );
    assert_eq!(
        ws_color_for_pane(&editor("/b/x", false, false, Some(9)), &workspaces, None, None),
        None
    );
    assert_eq!(
        ws_color_for_pane(&PaneContent::Terminal(1), &workspaces, Some("/a"), Some(1)),
        Some([10, 20, 30])
    );
    assert_eq!(
        ws_color_for_pane(&PaneContent::Terminal(1), &workspaces, Some(""), Some(1)),
        None
    );
    assert_eq!(
        ws_color_for_pane(&PaneContent::FileDiff { path: "/a".into() }, &workspaces, None, Some(1)),
        None
    );
    assert_eq!(
        ws_color_for_pane(&PaneContent::Terminal(1), &workspaces, Some("/a"), Some(7)),
        None
    );
    assert_eq!(
        ws_color_for_pane(
            &PaneContent::DeferredTerminal { cwd: Some("/b".into()), saved_title: None },
            &workspaces,
            None,
            Some(2),
        ),
        Some([40, 50, 60])
    );
}

#[test]
fn tooltips_and_search_root() {
    assert_eq!(shortcut_tooltip("Split", Some("Ctrl+D")), "Split (Ctrl+D)");
    assert_eq!(shortcut_tooltip("Split", None), "Split");
    assert_eq!(palette_search_root(Some("/ws"), Some("/cwd")), "/ws");
    assert_eq!(palette_search_root(None, Some("/cwd")), "/cwd");
    assert_eq!(palette_search_root(None, None), ".");
}

#[test]
fn spawn_size_and_duplicate_position() {
    let panes = vec![
        pane(1, PaneContent::Terminal(1), (100, 30)),
        pane(2, PaneContent::Terminal(2), (120, 40)),
    ];
    assert_eq!(spawn_size(&panes, Some(2)), (120, 40));
    assert_eq!(spawn_size(&panes, Some(9)), (100, 30));
    assert_eq!(spawn_size(&Vec::new(), None), (80, 24));
    assert_eq!(duplicate_insert_position(&panes, Some(1)), 1);
    assert_eq!(duplicate_insert_position(&panes, Some(2)), 2);
    assert_eq!(duplicate_insert_position(&panes, None), 2);
}

#[test]
fn replay_and_duplicate_commands() {
    let cmd = vec!["vim".to_string(), "my file.txt".to_string()];
    assert_eq!(replay_command_line(&cmd, false), "vim 'my file.txt'");
    assert_eq!(replay_command_line(&cmd, true), "& vim \"my file.txt\"");
    assert_eq!(duplicate_command(&cmd, Some("tool --fresh"), false), "tool --fresh");
    assert_eq!(duplicate_command(&cmd, None, false), "vim 'my file.txt'");
    assert_eq!(duplicate_command(&cmd, None, true), "& vim \"my file.txt\"");
    assert_eq!(replay_command_line(&Vec::new(), false), "");
}

#[test]
fn configured_shell_lookup() {
    let names = vec!["bash".to_string(), "zsh".to_string(), "zsh".to_string()];
    assert_eq!(configured_shell_index(&names, Some("zsh")), Some(1));
    assert_eq!(configured_shell_index(&names, Some("fish")), None);
    assert_eq!(configured_shell_index(&names, None), None);
}

#[test]
fn tab_clicks_renames_and_drops() {
    assert_eq!(tab_click(true, false, true, false, true), TabClick::Close);
    assert_eq!(tab_click(false, true, false, false, false), TabClick::Close);
    assert_eq!(tab_click(false, false, true, false, true), TabClick::StartRename);
    assert_eq!(tab_click(false, false, true, true, true), TabClick::Select);
    assert_eq!(tab_click(false, false, false, false, false), TabClick::Nothing);
    assert_eq!(rename_title("  build  "), Some("build".to_string()));
    assert_eq!(rename_title("   "), None);
    assert!(accepts_drop(DragKind::Tab { pane: 1, position: Some(0) }, 2));
    assert!(!accepts_drop(DragKind::Tab { pane: 2, position: Some(0) }, 2));
    assert!(!accepts_drop(DragKind::Workspace, 2));
    assert!(accepts_drop(DragKind::Openable, 2));
    assert!(drop_marker_on_right(DragKind::Tab { pane: 1, position: Some(0) }, 2));
    assert!(!drop_marker_on_right(DragKind::Tab { pane: 1, position: Some(3) }, 2));
    assert!(!drop_marker_on_right(DragKind::Tab { pane: 1, position: None }, 2));
    assert!(drop_marker_on_right(DragKind::Openable, 0));
}
