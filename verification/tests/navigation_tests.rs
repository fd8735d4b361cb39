use terminal_studio::layout::{ExtraWindow, Workspace};
use terminal_studio::navigation::{
    cycle_workspace, first_pane_in_group, navigate_to_pane, navigate_to_workspace, toggle_zoom,
    Navigation, PaneNavigation,
};

fn window(id: u64, ws: u64, active: Option<u32>) -> ExtraWindow {
    ExtraWindow {
        id,
        workspace_id: ws,
        active_pane_id: active,
    }
}

fn ws(id: u64, host: Option<u64>) -> Workspace {
    Workspace {
        id,
        name: format!("w{id}"),
        path: format!("/w/{id}"),
        color: [0, 0, 0],
        host_window_id: host,
    }
}

#[test]
fn first_pane_of_a_group() {
    let groups = vec![(1, None), (2, Some(5)), (3, Some(5))];
    assert_eq!(first_pane_in_group(&groups, Some(5)), Some(2));
    assert_eq!(first_pane_in_group(&groups, None), Some(1));
    assert_eq!(first_pane_in_group(&groups, Some(6)), None);
}

#[test]
fn workspace_navigation_cases() {
    let windows = vec![window(10, 5, Some(3)), window(11, 6, None)];
    let groups = vec![(1, None), (2, Some(5)), (3, Some(5)), (4, Some(7))];
    // Hosted elsewhere: that window, with its active pane.
    assert_eq!(
        navigate_to_workspace(&windows, &groups, 5, None),
        Navigation::Focus { window: Some(0), pane: 3 }
    );
    // Hosted here: switch here.
    assert_eq!(navigate_to_workspace(&windows, &groups, 5, Some(10)), Navigation::SwitchHere);
    // Hosted elsewhere without an active pane nor any pane: nothing.
    assert_eq!(navigate_to_workspace(&windows, &groups, 6, None), Navigation::Nothing);
    // Not hosted, from an extra window: the main window with the group's first pane.
    assert_eq!(
        navigate_to_workspace(&windows, &groups, 7, Some(11)),
        Navigation::Focus { window: None, pane: 4 }
    );
    // Not hosted, from the main window: switch here.
    assert_eq!(navigate_to_workspace(&windows, &groups, 7, None), Navigation::SwitchHere);
    // The "other" group (raw id u64::MAX) from an extra window.
    assert_eq!(
        navigate_to_workspace(&windows, &groups, u64::MAX, Some(10)),
        Navigation::Focus { window: None, pane: 1 }
    );
    assert_eq!(navigate_to_workspace(&windows, &groups, u64::MAX, None), Navigation::SwitchHere);
}

#[test]
fn pane_navigation_cases() {
    let windows = vec![window(10, 5, None)];
    assert_eq!(
        navigate_to_pane(&windows, Some(5), None, None),
        PaneNavigation::Focus { window: Some(0) }
    );
    assert_eq!(
        navigate_to_pane(&windows, Some(5), Some(10), Some(5)),
        PaneNavigation::Activate { switch_group: false }
    );
    assert_eq!(
        navigate_to_pane(&windows, Some(7), None, Some(5)),
        PaneNavigation::Activate { switch_group: true }
    );
    assert_eq!(
        navigate_to_pane(&windows, None, Some(10), None),
        PaneNavigation::Focus { window: None }
    );
}

#[test]
fn cycling_workspaces_wraps_and_skips_hosted() {
    let workspaces = vec![ws(1, None), ws(2, Some(9)), ws(3, None), ws(4, None)];
    assert_eq!(cycle_workspace(&workspaces, Some(1), true), Some(3));
    assert_eq!(cycle_workspace(&workspaces, Some(4), true), Some(1));
    assert_eq!(cycle_workspace(&workspaces, Some(1), false), Some(4));
    assert_eq!(cycle_workspace(&workspaces, Some(3), false), Some(1));
    // No active workspace (or a hosted one) counts as the first.
    assert_eq!(cycle_workspace(&workspaces, None, true), Some(3));
    assert_eq!(cycle_workspace(&workspaces, Some(2), false), Some(4));
    assert_eq!(cycle_workspace(&vec![ws(1, Some(2))], None, true), None);
    // Next then previous comes back.
    let next = cycle_workspace(&workspaces, Some(3), true);
    assert_eq!(cycle_workspace(&workspaces, next, false), Some(3));
}

#[test]
fn zoom_toggles() {
    assert_eq!(toggle_zoom(None, Some(4)), Some(4));
    assert_eq!(toggle_zoom(Some(4), Some(4)), None);
    assert_eq!(toggle_zoom(None, None), None);
}
