//! The texts a pane shows about itself: tab label, tab tooltip, info bar title,
//! quick-switcher entry, and the colour of its workspace.
use vstd::prelude::*;

use crate::closed_sessions::{decimal, decimal_string};
use crate::layout::{PaneContent, PaneEntry, Workspace, is_first_pane, has_pane, pane_position};
use crate::panes::{pane_group, pane_group_spec};
use crate::text::{chars_of, push_str};
use crate::text::trim_seq;
use crate::title::{
    effective_title, effective_title_spec, file_name_of, opt_view, path_file_name,
    shell_escape_arg, shell_escape_arg_windows, shell_safe, posix_quoted, windows_quoted,
};

verus! {

/// The file name of `p`, or nothing.
pub open spec fn name_or_empty(p: Seq<char>) -> Seq<char> {
    match path_file_name(p) {
        Some(f) => f,
        None => Seq::empty(),
    }
}

fn file_name_or_empty(p: &str) -> (r: String)
    ensures
        r@ == name_or_empty(p@),
{
    match file_name_of(p) {
        Some(f) => f,
        None => String::new(),
    }
}

pub open spec fn opt_string_view(o: Option<String>) -> Option<Seq<char>> {
    match o {
        Some(s) => Some(s@),
        None => None,
    }
}

/// `o` when it is present and non-empty.
pub open spec fn nonempty(o: Option<Seq<char>>) -> bool {
    o is Some && o->0.len() > 0
}

/// The workspace name that goes with a working directory: none for an empty one.
pub open spec fn ws_for_cwd(cwd: Seq<char>, cwd_workspace_name: Option<Seq<char>>) -> Option<Seq<char>> {
    if cwd.len() == 0 {
        None
    } else {
        cwd_workspace_name
    }
}

/// The label of a tab, given the effective title of its terminal (when the
/// pane shows a terminal whose session is found) and the name of the workspace
/// of the pane's working directory.
pub open spec fn tab_text(
    content: PaneContent,
    terminal_title: Option<Seq<char>>,
    cwd_workspace_name: Option<Seq<char>>,
) -> Seq<char> {
    match content {
        PaneContent::Terminal(sid) => match terminal_title {
            Some(t) => t,
            None => "Terminal "@ + decimal(sid as nat),
        },
        PaneContent::DeferredTerminal { cwd, saved_title } => if nonempty(opt_string_view(saved_title)) {
            saved_title->0@
        } else {
            let c = match cwd {
                Some(c) => c@,
                None => Seq::empty(),
            };
            effective_title_spec(Seq::empty(), c, None, None, ws_for_cwd(c, cwd_workspace_name))
        },
        PaneContent::FileEditor { path, dirty, save_error, .. } => if save_error {
            "! "@ + name_or_empty(path@)
        } else if dirty {
            "* "@ + name_or_empty(path@)
        } else {
            name_or_empty(path@)
        },
        PaneContent::FileDiff { path } => "\u{21c4} "@ + name_or_empty(path@),
        PaneContent::NoteEditor { .. } => "Notes"@,
        PaneContent::ConflictResolver { path } => match path_file_name(path@) {
            Some(n) => "\u{26a0} "@ + n,
            None => "Conflicts"@,
        },
    }
}

proof fn lemma_trim_empty()
    ensures
        trim_seq(Seq::<char>::empty()) == Seq::<char>::empty(),
{
    reveal_with_fuel(crate::text::trim_start_seq, 1);
    reveal_with_fuel(crate::text::trim_end_seq, 1);
}

/// `prefix` followed by `s`.
fn prefixed(prefix: &str, s: &str) -> (r: String)
    ensures
        r@ == prefix@ + s@,
{
    let mut r = String::new();
    push_str(&mut r, prefix);
    push_str(&mut r, s);
    assert(r@ =~= prefix@ + s@);
    r
}

/// The label of a tab. `terminal_title` is the effective title of the pane's
/// terminal when its session is found; `cwd_workspace_name` is the name of the
/// workspace holding the pane's working directory.
pub fn tab_display_text(
    content: &PaneContent,
    terminal_title: Option<&str>,
    cwd_workspace_name: Option<&str>,
) -> (r: String)
    ensures
        r@ == tab_text(*content, opt_view(terminal_title), opt_view(cwd_workspace_name)),
{
    match content {
        PaneContent::Terminal(sid) => match terminal_title {
            Some(t) => t.to_string(),
            None => {
                let n = decimal_string(*sid as u64);
                prefixed("Terminal ", n.as_str())
            },
        },
        PaneContent::DeferredTerminal { cwd, saved_title } => {
            if let Some(t) = saved_title {
                if chars_of(t.as_str()).len() > 0 {
                    return t.clone();
                }
            }
            let c: &str = match cwd {
                Some(c) => c.as_str(),
                None => "",
            };
            proof {
                reveal_strlit("");
                lemma_trim_empty();
            }
            assert(""@ =~= Seq::<char>::empty());
            let empty_cwd = chars_of(c).len() == 0;
            let ws = if empty_cwd {
                None
            } else {
                cwd_workspace_name
            };
            assert(opt_view(ws) == ws_for_cwd(c@, opt_view(cwd_workspace_name)));
            effective_title("", c, None, None, ws)
        },
        PaneContent::FileEditor { path, dirty, save_error, .. } => {
            let fname = file_name_or_empty(path.as_str());
            if *save_error {
                prefixed("! ", fname.as_str())
            } else if *dirty {
                prefixed("* ", fname.as_str())
            } else {
                fname
            }
        },
        PaneContent::FileDiff { path } => {
            let fname = file_name_or_empty(path.as_str());
            prefixed("\u{21c4} ", fname.as_str())
        },
        PaneContent::NoteEditor { .. } => "Notes".to_string(),
        PaneContent::ConflictResolver { path } => match file_name_of(path.as_str()) {
            Some(n) => prefixed("\u{26a0} ", n.as_str()),
            None => "Conflicts".to_string(),
        },
    }
}

/// `text`, then a line with `line` when `line` is non-empty.
pub open spec fn with_line(text: Seq<char>, line: Seq<char>) -> Seq<char> {
    if line.len() > 0 {
        text + seq!['\n'] + line
    } else {
        text
    }
}

/// The tooltip of a tab. `terminal` gives, for a terminal whose session is
/// found, its effective title and working directory.
pub open spec fn tooltip_text(
    content: PaneContent,
    terminal: Option<(Seq<char>, Seq<char>)>,
    cwd_workspace_name: Option<Seq<char>>,
) -> Seq<char> {
    match content {
        PaneContent::Terminal(sid) => match terminal {
            None => "Terminal "@ + decimal(sid as nat),
            Some((display, cwd)) => {
                let t = with_line(display, cwd);
                match ws_for_cwd(cwd, cwd_workspace_name) {
                    Some(n) => t + seq!['\n'] + n,
                    None => t,
                }
            },
        },
        PaneContent::DeferredTerminal { cwd, saved_title } => {
            let head = if nonempty(opt_string_view(saved_title)) {
                saved_title->0@
            } else {
                "Terminal"@
            };
            match cwd {
                Some(c) => with_line(head, c@),
                None => head,
            }
        },
        PaneContent::FileEditor { path, .. } => path@,
        PaneContent::FileDiff { path } => "Diff: "@ + path@,
        PaneContent::NoteEditor { .. } => "Notes"@,
        PaneContent::ConflictResolver { path } => "Conflicts: "@ + path@,
    }
}

fn add_line(text: &mut String, line: &str)
    ensures
        final(text)@ == with_line(old(text)@, line@),
{
    if chars_of(line).len() > 0 {
        crate::text::push_char(text, '\n');
        push_str(text, line);
    }
}

/// The tooltip of a tab: its full title, then its working directory and its
/// workspace's name, each on a line of its own when present.
pub fn tab_tooltip_text(
    content: &PaneContent,
    terminal: Option<(&str, &str)>,
    cwd_workspace_name: Option<&str>,
) -> (r: String)
    ensures
        r@ == tooltip_text(
            *content,
            match terminal {
                Some((d, c)) => Some((d@, c@)),
                None => None,
            },
            opt_view(cwd_workspace_name),
        ),
{
    match content {
        PaneContent::Terminal(sid) => match terminal {
            None => {
                let n = decimal_string(*sid as u64);
                prefixed("Terminal ", n.as_str())
            },
            Some((display, cwd)) => {
                let mut tip = display.to_string();
                add_line(&mut tip, cwd);
                if chars_of(cwd).len() > 0 {
                    if let Some(name) = cwd_workspace_name {
                        crate::text::push_char(&mut tip, '\n');
                        push_str(&mut tip, name);
                    }
                }
                tip
            },
        },
        PaneContent::DeferredTerminal { cwd, saved_title } => {
            let mut tip = match saved_title {
                Some(t) => if chars_of(t.as_str()).len() > 0 {
                    t.clone()
                } else {
                    "Terminal".to_string()
                },
                None => "Terminal".to_string(),
            };
            if let Some(c) = cwd {
                add_line(&mut tip, c.as_str());
            }
            tip
        },
        PaneContent::FileEditor { path, .. } => path.clone(),
        PaneContent::FileDiff { path } => prefixed("Diff: ", path.as_str()),
        PaneContent::NoteEditor { .. } => "Notes".to_string(),
        PaneContent::ConflictResolver { path } => prefixed("Conflicts: ", path.as_str()),
    }
}

/// The title the info bar shows for a pane: the terminal's effective title
/// (none when its session is not found), the edited file's name (`Editor`
/// without one), `Diff: name`, `Notes` or `Conflict Resolver`; nothing for a
/// terminal not started yet.
pub open spec fn info_title(content: PaneContent, terminal_title: Option<Seq<char>>) -> Option<Seq<char>> {
    match content {
        PaneContent::Terminal(_) => terminal_title,
        PaneContent::FileEditor { path, .. } => Some(
            match path_file_name(path@) {
                Some(n) => n,
                None => "Editor"@,
            },
        ),
        PaneContent::FileDiff { path } => Some("Diff: "@ + name_or_empty(path@)),
        PaneContent::NoteEditor { .. } => Some("Notes"@),
        PaneContent::ConflictResolver { .. } => Some("Conflict Resolver"@),
        PaneContent::DeferredTerminal { .. } => None,
    }
}

/// The title the info bar shows for a pane.
pub fn info_bar_title(content: &PaneContent, terminal_title: Option<&str>) -> (r: Option<String>)
    ensures
        opt_string_view(r) == info_title(*content, opt_view(terminal_title)),
{
    match content {
        PaneContent::Terminal(_) => match terminal_title {
            Some(t) => Some(t.to_string()),
            None => None,
        },
        PaneContent::FileEditor { path, .. } => Some(
            match file_name_of(path.as_str()) {
                Some(n) => n,
                None => "Editor".to_string(),
            },
        ),
        PaneContent::FileDiff { path } => {
            let n = file_name_or_empty(path.as_str());
            Some(prefixed("Diff: ", n.as_str()))
        },
        PaneContent::NoteEditor { .. } => Some("Notes".to_string()),
        PaneContent::ConflictResolver { .. } => Some("Conflict Resolver".to_string()),
        PaneContent::DeferredTerminal { .. } => None,
    }
}

/// The quick switcher's (label, location) for a pane. `session` gives, for a
/// terminal whose session is found, its title and shortened working directory;
/// `short_path` is the shortened path of the pane's file or working directory.
pub open spec fn switcher_entry_spec(
    content: PaneContent,
    session: Option<(Seq<char>, Seq<char>)>,
    short_path: Seq<char>,
) -> Option<(Seq<char>, Seq<char>)> {
    match content {
        PaneContent::Terminal(sid) => match session {
            None => None,
            Some((title, short_cwd)) => Some(
                (
                    if title.len() == 0 {
                        "Session "@ + decimal(sid as nat)
                    } else {
                        title
                    },
                    short_cwd,
                ),
            ),
        },
        PaneContent::DeferredTerminal { cwd, .. } => Some(
            (
                "Terminal"@,
                match cwd {
                    Some(_) => short_path,
                    None => Seq::empty(),
                },
            ),
        ),
        PaneContent::FileEditor { path, .. } => Some(
            (
                match path_file_name(path@) {
                    Some(n) => n,
                    None => "editor"@,
                },
                short_path,
            ),
        ),
        PaneContent::FileDiff { path } => Some(
            (
                "diff: "@ + match path_file_name(path@) {
                    Some(n) => n,
                    None => "diff"@,
                },
                short_path,
            ),
        ),
        PaneContent::NoteEditor { .. } => Some(("Notes"@, Seq::empty())),
        PaneContent::ConflictResolver { .. } => None,
    }
}

/// The quick switcher's (label, location) for a pane.
pub fn switcher_entry(
    content: &PaneContent,
    session: Option<(&str, &str)>,
    short_path: &str,
) -> (r: Option<(String, String)>)
    ensures
        match r {
            Some((a, b)) => switcher_entry_spec(
                *content,
                match session {
                    Some((t, c)) => Some((t@, c@)),
                    None => None,
                },
                short_path@,
            ) == Some((a@, b@)),
            None => switcher_entry_spec(
                *content,
                match session {
                    Some((t, c)) => Some((t@, c@)),
                    None => None,
                },
                short_path@,
            ) is None,
        },
{
    match content {
        PaneContent::Terminal(sid) => match session {
            None => None,
            Some((title, short_cwd)) => {
                let label = if chars_of(title).len() == 0 {
                    let n = decimal_string(*sid as u64);
                    prefixed("Session ", n.as_str())
                } else {
                    title.to_string()
                };
                Some((label, short_cwd.to_string()))
            },
        },
        PaneContent::DeferredTerminal { cwd, .. } => {
            let loc = match cwd {
                Some(_) => short_path.to_string(),
                None => String::new(),
            };
            Some(("Terminal".to_string(), loc))
        },
        PaneContent::FileEditor { path, .. } => {
            let name = match file_name_of(path.as_str()) {
                Some(n) => n,
                None => "editor".to_string(),
            };
            Some((name, short_path.to_string()))
        },
        PaneContent::FileDiff { path } => {
            let name = match file_name_of(path.as_str()) {
                Some(n) => n,
                None => "diff".to_string(),
            };
            Some((prefixed("diff: ", name.as_str()), short_path.to_string()))
        },
        PaneContent::NoteEditor { .. } => Some(("Notes".to_string(), String::new())),
        PaneContent::ConflictResolver { .. } => None,
    }
}

/// The first workspace with id `id`.
pub open spec fn is_first_workspace(ws: Seq<Workspace>, id: u64, i: int) -> bool {
    0 <= i < ws.len() && ws[i].id == id && forall|j: int| 0 <= j < i ==> ws[j].id != id
}

/// The position of the first workspace with id `id`, if any.
pub fn find_workspace(workspaces: &Vec<Workspace>, id: u64) -> (r: Option<usize>)
    ensures
        r matches Some(i) ==> is_first_workspace(workspaces@, id, i as int),
        r is None <==> forall|i: int| 0 <= i < workspaces@.len() ==> workspaces@[i].id != id,
{
    let mut i: usize = 0;
    while i < workspaces.len()
        invariant
            0 <= i <= workspaces.len(),
            forall|j: int| 0 <= j < i ==> workspaces@[j].id != id,
        decreases workspaces.len() - i,
    {
        if workspaces[i].id == id {
            return Some(i);
        }
        i = i + 1;
    }
    None
}

/// The colour of the workspace with id `id`, if there is one.
pub open spec fn workspace_color(ws: Seq<Workspace>, id: Option<u64>) -> Option<[u8; 3]> {
    match id {
        Some(i) => if exists|k: int| is_first_workspace(ws, i, k) {
            Some(ws[choose|k: int| is_first_workspace(ws, i, k)].color)
        } else {
            None
        },
        None => None,
    }
}

proof fn lemma_first_workspace_unique(ws: Seq<Workspace>, id: u64, a: int, b: int)
    requires
        is_first_workspace(ws, id, a),
        is_first_workspace(ws, id, b),
    ensures
        a == b,
{
    if a < b {
        assert(ws[a].id != id);
    }
    if b < a {
        assert(ws[b].id != id);
    }
}

fn workspace_color_of(workspaces: &Vec<Workspace>, id: Option<u64>) -> (r: Option<[u8; 3]>)
    ensures
        r == workspace_color(workspaces@, id),
{
    match id {
        None => None,
        Some(i) => match find_workspace(workspaces, i) {
            Some(k) => {
                proof {
                    let c = choose|c: int| is_first_workspace(workspaces@, i, c);
                    lemma_first_workspace_unique(workspaces@, i, c, k as int);
                }
                Some(workspaces[k].color)
            },
            None => {
                proof {
                    if exists|k: int| is_first_workspace(workspaces@, i, k) {
                        let k = choose|k: int| is_first_workspace(workspaces@, i, k);
                        assert(workspaces@[k].id != i);
                    }
                }
                None
            },
        },
    }
}

/// The colour of a pane's workspace: the colour of the workspace the pane
/// belongs to (see `pane_group_spec`), except for diff and conflict panes,
/// which show none. `session_cwd` is the working directory of a terminal
/// pane's session (when found) and `cwd_workspace` the id of the workspace
/// holding the pane's own path.
pub open spec fn pane_color(
    content: PaneContent,
    workspaces: Seq<Workspace>,
    session_cwd: Option<Seq<char>>,
    cwd_workspace: Option<u64>,
) -> Option<[u8; 3]> {
    match content {
        PaneContent::FileDiff { .. } => None,
        PaneContent::ConflictResolver { .. } => None,
        _ => workspace_color(workspaces, pane_group_spec(content, session_cwd, cwd_workspace)),
    }
}

/// The colour of a pane's workspace, if the pane belongs to one.
pub fn ws_color_for_pane(
    content: &PaneContent,
    workspaces: &Vec<Workspace>,
    session_cwd: Option<&str>,
    cwd_workspace: Option<u64>,
) -> (r: Option<[u8; 3]>)
    ensures
        r == pane_color(*content, workspaces@, opt_view(session_cwd), cwd_workspace),
{
    match content {
        PaneContent::FileDiff { .. } => None,
        PaneContent::ConflictResolver { .. } => None,
        _ => {
            let g = pane_group(content, session_cwd, cwd_workspace);
            workspace_color_of(workspaces, g)
        },
    }
}

/// A toolbar tooltip: `desc (shortcut)` when the action has a shortcut.
pub fn shortcut_tooltip(desc: &str, shortcut_label: Option<&str>) -> (r: String)
    ensures
        r@ == match opt_view(shortcut_label) {
            Some(l) => desc@ + " ("@ + l + ")"@,
            None => desc@,
        },
{
    match shortcut_label {
        Some(label) => {
            let mut r = String::new();
            push_str(&mut r, desc);
            push_str(&mut r, " (");
            push_str(&mut r, label);
            push_str(&mut r, ")");
            assert(r@ =~= desc@ + " ("@ + label@ + ")"@);
            r
        },
        None => desc.to_string(),
    }
}

/// Where the command palette searches files: the active workspace's directory
/// when it exists, else the active pane's working directory, else `.`.
pub fn palette_search_root(workspace_dir: Option<&str>, active_pane_cwd: Option<&str>) -> (r: String)
    ensures
        r@ == match opt_view(workspace_dir) {
            Some(w) => w,
            None => match opt_view(active_pane_cwd) {
                Some(c) => c,
                None => "."@,
            },
        },
{
    match workspace_dir {
        Some(w) => w.to_string(),
        None => match active_pane_cwd {
            Some(c) => c.to_string(),
            None => ".".to_string(),
        },
    }
}

/// The size a new terminal gets: that of the active pane, else of the first
/// pane, else 80 by 24.
pub open spec fn spawn_size_spec(panes: Seq<PaneEntry>, active: Option<u32>) -> (u16, u16) {
    if active is Some && has_pane(panes, active->0) {
        panes[choose|i: int| is_first_pane(panes, active->0, i)].last_size
    } else if panes.len() > 0 {
        panes[0].last_size
    } else {
        (80, 24)
    }
}

proof fn lemma_first_pane_unique(s: Seq<PaneEntry>, id: u32, a: int, b: int)
    requires
        is_first_pane(s, id, a),
        is_first_pane(s, id, b),
    ensures
        a == b,
{
    if a < b {
        assert(s[a].id != id);
    }
    if b < a {
        assert(s[b].id != id);
    }
}

/// The size a new terminal gets.
pub fn spawn_size(panes: &Vec<PaneEntry>, active: Option<u32>) -> (r: (u16, u16))
    ensures
        r == spawn_size_spec(panes@, active),
{
    if let Some(a) = active {
        if let Some(i) = pane_position(panes, a) {
            proof {
                let c = choose|c: int| is_first_pane(panes@, a, c);
                lemma_first_pane_unique(panes@, a, c, i as int);
            }
            return panes[i].last_size;
        }
    }
    if panes.len() > 0 {
        panes[0].last_size
    } else {
        (80, 24)
    }
}

/// Where a duplicated session's pane goes: right after the active pane, else
/// at the end.
pub fn duplicate_insert_position(panes: &Vec<PaneEntry>, active: Option<u32>) -> (r: usize)
    requires
        panes@.len() < usize::MAX,
    ensures
        active is Some && has_pane(panes@, active->0) ==> forall|i: int|
            is_first_pane(panes@, active->0, i) ==> r == i + 1,
        !(active is Some && has_pane(panes@, active->0)) ==> r == panes@.len(),
{
    if let Some(a) = active {
        if let Some(i) = pane_position(panes, a) {
            proof {
                assert forall|c: int| is_first_pane(panes@, a, c) implies c == i by {
                    lemma_first_pane_unique(panes@, a, c, i as int);
                }
            }
            return i + 1;
        }
    }
    panes.len()
}

/// The arguments of `args` quoted by `quote` and joined by single spaces.
pub open spec fn joined_quoted(args: Seq<Seq<char>>, windows: bool) -> Seq<char>
    decreases args.len(),
{
    if args.len() == 0 {
        Seq::empty()
    } else {
        let q = if windows {
            if shell_safe(args.last()) {
                args.last()
            } else {
                windows_quoted(args.last())
            }
        } else {
            if shell_safe(args.last()) {
                args.last()
            } else {
                posix_quoted(args.last())
            }
        };
        if args.len() == 1 {
            q
        } else {
            joined_quoted(args.drop_last(), windows) + seq![' '] + q
        }
    }
}

/// The command that replays a foreground command line in a new shell: each
/// argument quoted and joined by spaces, behind `& ` for PowerShell.
pub open spec fn replay_command(cmdline: Seq<Seq<char>>, windows: bool) -> Seq<char> {
    if windows {
        "& "@ + joined_quoted(cmdline, true)
    } else {
        joined_quoted(cmdline, false)
    }
}

/// The command line of a foreground process, quoted for the shell (`windows`
/// selects PowerShell quoting and its `& ` call operator).
pub fn replay_command_line(cmdline: &Vec<String>, windows: bool) -> (r: String)
    ensures
        r@ == replay_command(cmdline@.map_values(|a: String| a@), windows),
{
    let ghost args = cmdline@.map_values(|a: String| a@);
    let mut r = String::new();
    let mut i: usize = 0;
    assert(args.take(0) =~= Seq::<Seq<char>>::empty());
    while i < cmdline.len()
        invariant
            0 <= i <= cmdline.len(),
            args == cmdline@.map_values(|a: String| a@),
            r@ == joined_quoted(args.take(i as int), windows),
        decreases cmdline.len() - i,
    {
        assert(args.take(i + 1).drop_last() =~= args.take(i as int));
        assert(args.take(i + 1).last() == cmdline@[i as int]@);
        let q = if windows {
            shell_escape_arg_windows(cmdline[i].as_str())
        } else {
            shell_escape_arg(cmdline[i].as_str())
        };
        if i > 0 {
            crate::text::push_char(&mut r, ' ');
        }
        push_str(&mut r, q.as_str());
        assert(r@ =~= joined_quoted(args.take(i + 1), windows));
        i = i + 1;
    }
    assert(args.take(i as int) =~= args);
    if windows {
        prefixed("& ", r.as_str())
    } else {
        r
    }
}

/// The command a duplicated session runs: `relaunch` for a process that is
/// started afresh by its own launch command rather than replayed, else the
/// foreground command line replayed.
pub fn duplicate_command(cmdline: &Vec<String>, relaunch: Option<&str>, windows: bool) -> (r: String)
    ensures
        r@ == match relaunch {
            Some(c) => c@,
            None => replay_command(cmdline@.map_values(|a: String| a@), windows),
        },
{
    match relaunch {
        Some(c) => c.to_string(),
        None => replay_command_line(cmdline, windows),
    }
}

/// The position of the shell whose display name is `preferred`, if any (the
/// default shell is used otherwise).
pub fn configured_shell_index(shell_names: &Vec<String>, preferred: Option<&str>) -> (r: Option<usize>)
    ensures
        preferred is None ==> r is None,
        r matches Some(i) ==> i < shell_names@.len() && shell_names@[i as int]@ == preferred->0@
            && forall|j: int| 0 <= j < i ==> shell_names@[j]@ != preferred->0@,
        preferred is Some && r is None ==> forall|j: int|
            0 <= j < shell_names@.len() ==> shell_names@[j]@ != preferred->0@,
{
    let name = match preferred {
        Some(n) => n,
        None => return None,
    };
    let mut i: usize = 0;
    while i < shell_names.len()
        invariant
            0 <= i <= shell_names.len(),
            preferred == Some(name),
            forall|j: int| 0 <= j < i ==> shell_names@[j]@ != name@,
        decreases shell_names.len() - i,
    {
        if crate::text::str_eq(shell_names[i].as_str(), name) {
            return Some(i);
        }
        i = i + 1;
    }
    None
}

// ── Clicking, renaming and dragging tabs ────────────────────────────────────

/// What a click on a tab does.
#[derive(Clone, Copy, Debug, PartialEq, Eq, Structural)]
pub enum TabClick {
    /// Close the tab (its close button, or a middle click).
    Close,
    /// Start renaming it (a double click), and select it.
    StartRename,
    /// Select it (and clear its finished-process badge).
    Select,
    Nothing,
}

/// The effect of this frame's clicks on a tab.
pub fn tab_click(close_clicked: bool, middle_clicked: bool, double_clicked: bool, renaming: bool, clicked: bool) -> (r: TabClick)
    ensures
        r == (if close_clicked || middle_clicked {
            TabClick::Close
        } else if double_clicked && !renaming {
            TabClick::StartRename
        } else if clicked {
            TabClick::Select
        } else {
            TabClick::Nothing
        }),
{
    if close_clicked || middle_clicked {
        TabClick::Close
    } else if double_clicked && !renaming {
        TabClick::StartRename
    } else if clicked {
        TabClick::Select
    } else {
        TabClick::Nothing
    }
}

/// The title a rename commits: the typed text trimmed, unless that is empty
/// (the title is then left alone).
pub fn rename_title(typed: &str) -> (r: Option<String>)
    ensures
        match r {
            Some(t) => t@ == trim_seq(typed@) && t@.len() > 0,
            None => trim_seq(typed@).len() == 0,
        },
{
    let t = crate::text::trim_chars(&chars_of(typed));
    if t.len() == 0 {
        None
    } else {
        Some(crate::text::string_of(&t))
    }
}

/// What is being dragged over the tab bar.
#[derive(Clone, Copy, Debug, PartialEq, Eq, Structural)]
pub enum DragKind {
    /// A tab, by pane id, at this position of the tab bar.
    Tab { pane: u32, position: Option<usize> },
    /// A workspace card.
    Workspace,
    /// Anything else that can become a tab (a session, a file, notes).
    Openable,
}

/// Whether the tab of pane `pane_id` accepts a drop of `dragged`: another tab
/// or anything openable, never a workspace or the tab itself.
pub fn accepts_drop(dragged: DragKind, pane_id: u32) -> (b: bool)
    ensures
        b == match dragged {
            DragKind::Tab { pane, .. } => pane != pane_id,
            DragKind::Workspace => false,
            DragKind::Openable => true,
        },
{
    match dragged {
        DragKind::Tab { pane, .. } => pane != pane_id,
        DragKind::Workspace => false,
        DragKind::Openable => true,
    }
}

/// Whether the drop marker goes on the right edge of the tab at position
/// `i`: for a tab dragged from its left, or for anything that is not a tab
/// of the bar.
pub fn drop_marker_on_right(dragged: DragKind, i: usize) -> (b: bool)
    ensures
        b == match dragged {
            DragKind::Tab { position, .. } => match position {
                Some(src) => src < i,
                None => false,
            },
            _ => true,
        },
{
    match dragged {
        DragKind::Tab { position, .. } => match position {
            Some(src) => src < i,
            None => false,
        },
        _ => true,
    }
}

} // verus!
