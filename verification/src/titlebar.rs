//! The title bar's decisions: the window title, the right panel's tab, what
//! the close button does, and the update button.
use vstd::prelude::*;

use crate::text::{push_str, str_eq};

verus! {

/// The tab shown in the right panel.
pub enum RightTab {
    Directory,
    GitDiff,
    /// A markdown file, by path.
    Markdown(String),
}

/// Whether the right panel may keep showing `tab`: the directory always; the
/// git diff when the active pane's directory is a git directory; a markdown
/// file while it is among the tabs shown for the active workspace.
pub open spec fn tab_still_valid(tab: RightTab, cwd_is_git: bool, markdown_shown: bool) -> bool {
    match tab {
        RightTab::Directory => true,
        RightTab::GitDiff => cwd_is_git,
        RightTab::Markdown(_) => markdown_shown,
    }
}

/// The right panel's tab after checking it: kept when still valid, else
/// the directory.
pub fn validated_right_tab(tab: RightTab, cwd_is_git: bool, markdown_shown: bool) -> (r: RightTab)
    ensures
        tab_still_valid(tab, cwd_is_git, markdown_shown) ==> r == tab,
        !tab_still_valid(tab, cwd_is_git, markdown_shown) ==> r is Directory,
{
    let keep = match &tab {
        RightTab::Directory => true,
        RightTab::GitDiff => cwd_is_git,
        RightTab::Markdown(_) => markdown_shown,
    };
    if keep {
        tab
    } else {
        RightTab::Directory
    }
}

/// The window title: the application's name, then the active workspace's.
pub fn window_title(workspace_name: Option<&str>) -> (r: String)
    ensures
        r@ == match workspace_name {
            Some(n) => "Terminal Studio \u{2014} "@ + n@,
            None => "Terminal Studio"@,
        },
{
    match workspace_name {
        Some(n) => {
            let mut t = "Terminal Studio \u{2014} ".to_string();
            push_str(&mut t, n);
            t
        },
        None => "Terminal Studio".to_string(),
    }
}

/// Whether the window title must be sent: only when it differs from the one
/// sent last.
pub fn title_needs_update(last_sent: Option<&str>, title: &str) -> (b: bool)
    ensures
        b == match last_sent {
            Some(l) => l@ != title@,
            None => true,
        },
{
    match last_sent {
        Some(l) => !str_eq(l, title),
        None => true,
    }
}

/// Whether a repaint is asked for because the window has just gained focus.
pub fn repaint_on_focus(focused: bool, was_focused: bool) -> (b: bool)
    ensures
        b == (focused && !was_focused),
{
    focused && !was_focused
}

/// What the close button does.
#[derive(Clone, Copy, Debug, PartialEq, Eq, Structural)]
pub enum CloseAction {
    /// Close this extra window.
    CloseWindow,
    /// Quit at once: there is no session to lose.
    QuitNow,
    /// Ask before quitting.
    ConfirmQuit,
}

/// What the close button does: an extra window closes; the main window quits
/// at once without sessions, else asks first.
pub fn close_button_action(in_extra_window: bool, has_sessions: bool) -> (r: CloseAction)
    ensures
        r == (if in_extra_window {
            CloseAction::CloseWindow
        } else if !has_sessions {
            CloseAction::QuitNow
        } else {
            CloseAction::ConfirmQuit
        }),
{
    if in_extra_window {
        CloseAction::CloseWindow
    } else if !has_sessions {
        CloseAction::QuitNow
    } else {
        CloseAction::ConfirmQuit
    }
}

/// What the updater reports.
pub enum UpdateOffer {
    /// A newer version can be installed.
    Available { version: String },
    /// An update was installed; a restart applies it.
    RestartRequired,
    /// Nothing to offer.
    NoUpdate,
}

/// What a click on the update button does.
#[derive(Clone, Copy, Debug, PartialEq, Eq, Structural)]
pub enum UpdateClick {
    OpenSettings,
    Restart,
    Nothing,
}

/// The update button's label, when the button is shown.
pub fn update_button_label(offer: &UpdateOffer) -> (r: Option<String>)
    ensures
        match offer {
            UpdateOffer::Available { version } => r matches Some(l) && l@ == "\u{2B06} Update v"@ + version@,
            UpdateOffer::RestartRequired => r matches Some(l) && l@ == "Restart to update"@,
            UpdateOffer::NoUpdate => r is None,
        },
{
    match offer {
        UpdateOffer::Available { version } => {
            let mut l = "\u{2B06} Update v".to_string();
            push_str(&mut l, version.as_str());
            Some(l)
        },
        UpdateOffer::RestartRequired => Some("Restart to update".to_string()),
        UpdateOffer::NoUpdate => None,
    }
}

/// What a click on the update button does: an available update opens the
/// settings; an installed one restarts the application.
pub fn update_click(offer: &UpdateOffer) -> (r: UpdateClick)
    ensures
        r == match offer {
            UpdateOffer::Available { .. } => UpdateClick::OpenSettings,
            UpdateOffer::RestartRequired => UpdateClick::Restart,
            UpdateOffer::NoUpdate => UpdateClick::Nothing,
        },
{
    match offer {
        UpdateOffer::Available { .. } => UpdateClick::OpenSettings,
        UpdateOffer::RestartRequired => UpdateClick::Restart,
        UpdateOffer::NoUpdate => UpdateClick::Nothing,
    }
}


/// What toggling the titlebar's system monitor setting does to the monitor.
#[derive(Clone, Copy, Debug, PartialEq, Eq, Structural)]
pub enum MonitorAction {
    /// Start the monitor.
    Start,
    /// Stop the running monitor.
    Stop,
    /// Leave it as it is.
    Keep,
}

/// The monitor's fate when the setting is switched to `show`: started when
/// shown and not running, stopped when hidden (dropping it, running or not).
pub fn monitor_action(show: bool, running: bool) -> (a: MonitorAction)
    ensures
        a == (if show {
            if running {
                MonitorAction::Keep
            } else {
                MonitorAction::Start
            }
        } else {
            MonitorAction::Stop
        }),
{
    if show {
        if running {
            MonitorAction::Keep
        } else {
            MonitorAction::Start
        }
    } else {
        MonitorAction::Stop
    }
}

} // verus!
