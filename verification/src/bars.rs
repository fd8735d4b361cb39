//! The status bar and the info bar: what they show and what their buttons do.
use vstd::prelude::*;

use crate::closed_sessions::{decimal, decimal_string};
use crate::text::{chars_of, push_char, push_str};

verus! {

/// What the status bar shows.
pub struct StatusBarData {
    pub cwd: String,
    pub git_branch: String,
    pub git_diff_count: usize,
    pub shell_name: String,
    pub cols: u16,
    pub rows: u16,
    pub zoomed: bool,
    pub unsaved_folder: bool,
}

/// What the user did on the status bar.
pub struct StatusBarResult {
    pub save_workspace_clicked: bool,
}

/// The texts on the right of the status bar, left to right: a zoom marker when
/// the pane is zoomed, the shell name, and `cols×rows`.
pub open spec fn right_parts(d: StatusBarData) -> Seq<Seq<char>> {
    let dims = decimal(d.cols as nat) + seq!['\u{00d7}'] + decimal(d.rows as nat);
    if d.zoomed {
        seq!["\u{26F6} ZOOM"@, d.shell_name@, dims]
    } else {
        seq![d.shell_name@, dims]
    }
}

/// The texts on the right of the status bar, left to right.
pub fn status_bar_right_parts(data: &StatusBarData) -> (r: Vec<String>)
    ensures
        r@.map_values(|s: String| s@) == right_parts(*data),
{
    let mut dims = decimal_string(data.cols as u64);
    push_char(&mut dims, '\u{00d7}');
    let rows = decimal_string(data.rows as u64);
    push_str(&mut dims, rows.as_str());
    assert(dims@ =~= decimal(data.cols as nat) + seq!['\u{00d7}'] + decimal(data.rows as nat));
    let mut r: Vec<String> = Vec::new();
    if data.zoomed {
        r.push("\u{26F6} ZOOM".to_string());
    }
    r.push(data.shell_name.clone());
    r.push(dims);
    assert(r@.map_values(|s: String| s@) =~= right_parts(*data));
    r
}

/// The git part of the status bar: `⎇ branch`, and ` +count` when files differ;
/// nothing without a branch.
pub open spec fn git_part(d: StatusBarData) -> Option<(Seq<char>, Option<Seq<char>>)> {
    if d.git_branch@.len() == 0 {
        None
    } else {
        Some(
            (
                "\u{2387} "@ + d.git_branch@,
                if d.git_diff_count > 0 {
                    Some(" +"@ + decimal(d.git_diff_count as nat))
                } else {
                    None
                },
            ),
        )
    }
}

/// The git part of the status bar.
pub fn status_bar_git_part(data: &StatusBarData) -> (r: Option<(String, Option<String>)>)
    ensures
        match r {
            Some((b, c)) => git_part(*data) == Some(
                (
                    b@,
                    match c {
                        Some(c) => Some(c@),
                        None => None,
                    },
                ),
            ),
            None => git_part(*data) is None,
        },
{
    if chars_of(data.git_branch.as_str()).len() == 0 {
        return None;
    }
    let mut b = String::new();
    push_str(&mut b, "\u{2387} ");
    push_str(&mut b, data.git_branch.as_str());
    let c = if data.git_diff_count > 0 {
        let mut c = String::new();
        push_str(&mut c, " +");
        let n = decimal_string(data.git_diff_count as u64);
        push_str(&mut c, n.as_str());
        Some(c)
    } else {
        None
    };
    Some((b, c))
}

/// Whether the status bar offers "Save as workspace": for a folder not saved
/// as a workspace, with a working directory.
pub fn shows_save_workspace(data: &StatusBarData) -> (b: bool)
    ensures
        b == (data.unsaved_folder && data.cwd@.len() > 0),
{
    data.unsaved_folder && chars_of(data.cwd.as_str()).len() > 0
}

/// Where the info bar is placed.
#[derive(Clone, Copy, Debug, PartialEq, Eq, Structural)]
pub enum InfoBarPosition {
    Top,
    Bottom,
    Hidden,
}

impl Default for InfoBarPosition {
    fn default() -> (r: Self)
        ensures
            r == InfoBarPosition::Top,
    {
        InfoBarPosition::Top
    }
}

/// The position the info bar's buttons ask for this frame: hidden when the
/// hide button was clicked, else the other edge when the move button was,
/// else no change.
pub open spec fn info_bar_request(current: InfoBarPosition, toggle_clicked: bool, hide_clicked: bool) -> Option<InfoBarPosition> {
    if hide_clicked {
        Some(InfoBarPosition::Hidden)
    } else if toggle_clicked {
        Some(
            if current == InfoBarPosition::Top {
                InfoBarPosition::Bottom
            } else {
                InfoBarPosition::Top
            },
        )
    } else {
        None
    }
}

/// The position the info bar's buttons ask for this frame.
pub fn info_bar_action(current: InfoBarPosition, toggle_clicked: bool, hide_clicked: bool) -> (r: Option<InfoBarPosition>)
    ensures
        r == info_bar_request(current, toggle_clicked, hide_clicked),
{
    let mut action = None;
    if toggle_clicked {
        let is_top = current == InfoBarPosition::Top;
        action = Some(
            if is_top {
                InfoBarPosition::Bottom
            } else {
                InfoBarPosition::Top
            },
        );
    }
    if hide_clicked {
        action = Some(InfoBarPosition::Hidden);
    }
    action
}

/// The text segments of the info bar, left to right: the session title, ` · `
/// and the workspace name (the separator only after a title), and
/// `  ⎇ branch` for a non-empty branch.
pub open spec fn info_segments(title: Option<Seq<char>>, ws: Option<Seq<char>>, branch: Option<Seq<char>>) -> Seq<Seq<char>> {
    let a: Seq<Seq<char>> = match title {
        Some(t) => seq![t],
        None => Seq::empty(),
    };
    let b: Seq<Seq<char>> = match ws {
        Some(w) => if title is Some {
            seq![" \u{b7} "@, w]
        } else {
            seq![w]
        },
        None => Seq::empty(),
    };
    let c: Seq<Seq<char>> = match branch {
        Some(br) => if br.len() > 0 {
            seq!["  \u{2387} "@ + br]
        } else {
            Seq::empty()
        },
        None => Seq::empty(),
    };
    a + b + c
}

/// The text segments of the info bar, left to right.
pub fn info_bar_segments(title: Option<&str>, ws: Option<&str>, branch: Option<&str>) -> (r: Vec<String>)
    ensures
        r@.map_values(|s: String| s@) == info_segments(
            crate::title::opt_view(title),
            crate::title::opt_view(ws),
            crate::title::opt_view(branch),
        ),
{
    let mut r: Vec<String> = Vec::new();
    if let Some(t) = title {
        r.push(t.to_string());
    }
    if let Some(w) = ws {
        if r.len() > 0 {
            r.push(" \u{b7} ".to_string());
        }
        r.push(w.to_string());
    }
    if let Some(b) = branch {
        if chars_of(b).len() > 0 {
            let mut s = String::new();
            push_str(&mut s, "  \u{2387} ");
            push_str(&mut s, b);
            r.push(s);
        }
    }
    assert(r@.map_values(|s: String| s@) =~= info_segments(
        crate::title::opt_view(title),
        crate::title::opt_view(ws),
        crate::title::opt_view(branch),
    ));
    r
}

/// The move button flips the info bar between the top and the bottom: two
/// moves bring it back; the hide button always hides it, whatever else.
pub proof fn lemma_info_bar_buttons(p: InfoBarPosition, toggle_clicked: bool)
    ensures
        p != InfoBarPosition::Hidden ==> info_bar_request(info_bar_request(p, true, false)->0, true, false)
            == Some(p),
        info_bar_request(p, toggle_clicked, true) == Some(InfoBarPosition::Hidden),
        info_bar_request(p, false, false) is None,
{
}

} // verus!
