//! Panes and sessions together: giving a session a pane, closing panes and
//! the sessions they ran, which workspace and directory a pane belongs to, and
//! the pane last used in each workspace.
use vstd::prelude::*;

use crate::layout::{PaneContent, PaneEntry, Workspace};
use crate::text::chars_of;
use crate::worker::{opt_str_view, parent_of, path_parent};

verus! {

// ── Giving a session a pane ──────────────────────────────────────────────────

/// Some pane shows the terminal of session `sid`.
pub open spec fn shows_session(s: Seq<PaneEntry>, sid: u32) -> bool {
    exists|i: int| 0 <= i < s.len() && s[i].content == PaneContent::Terminal(sid)
}

/// `after` is `before` with a terminal pane for session `sid`, of size
/// `size` and id `id`, added at the end.
pub open spec fn pushed_terminal(before: Seq<PaneEntry>, after: Seq<PaneEntry>, id: u32, sid: u32, size: (u16, u16)) -> bool {
    &&& after.len() == before.len() + 1
    &&& after.subrange(0, before.len() as int) == before
    &&& after.last().id == id
    &&& after.last().content == PaneContent::Terminal(sid)
    &&& after.last().last_size == size
    &&& after.last().labels@.len() == 0
}

fn new_terminal_pane(panes: &mut Vec<PaneEntry>, next_pane_id: &mut u32, sid: u32, size: (u16, u16)) -> (id: u32)
    requires
        *old(next_pane_id) < u32::MAX,
    ensures
        id == *old(next_pane_id),
        *final(next_pane_id) == *old(next_pane_id) + 1,
        pushed_terminal(old(panes)@, final(panes)@, id, sid, size),
{
    let id = *next_pane_id;
    *next_pane_id = id + 1;
    let ghost before = panes@;
    panes.push(PaneEntry { id, content: PaneContent::Terminal(sid), last_size: size, labels: Vec::new() });
    assert(panes@.subrange(0, before.len() as int) =~= before);
    id
}

/// Whether some pane shows session `sid`.
fn find_session_pane(panes: &Vec<PaneEntry>, sid: u32) -> (b: bool)
    ensures
        b == shows_session(panes@, sid),
{
    let mut i: usize = 0;
    while i < panes.len()
        invariant
            0 <= i <= panes.len(),
            forall|j: int| 0 <= j < i ==> panes@[j].content != PaneContent::Terminal(sid),
        decreases panes.len() - i,
    {
        match &panes[i].content {
            PaneContent::Terminal(s) => {
                if *s == sid {
                    return true;
                }
            },
            _ => {},
        }
        i = i + 1;
    }
    false
}

/// Makes sure a pane shows session `sid`: when none does, a terminal pane of
/// size `size` is added at the end under the next pane id, which is returned.
pub fn ensure_terminal_pane(panes: &mut Vec<PaneEntry>, next_pane_id: &mut u32, sid: u32, size: (u16, u16)) -> (r: Option<u32>)
    requires
        !shows_session(old(panes)@, sid) ==> *old(next_pane_id) < u32::MAX,
    ensures
        shows_session(old(panes)@, sid) ==> r is None && final(panes)@ == old(panes)@
            && *final(next_pane_id) == *old(next_pane_id),
        !shows_session(old(panes)@, sid) ==> r == Some(*old(next_pane_id)) && *final(next_pane_id)
            == *old(next_pane_id) + 1 && pushed_terminal(old(panes)@, final(panes)@, *old(next_pane_id), sid, size),
        shows_session(final(panes)@, sid),
{
    if find_session_pane(panes, sid) {
        return None;
    }
    let id = new_terminal_pane(panes, next_pane_id, sid, size);
    assert(panes@[panes@.len() - 1].content == PaneContent::Terminal(sid));
    Some(id)
}

/// Registers a session that was just started: it becomes the active session
/// when there is none, and when no pane is open it gets one (of size `size`),
/// which becomes the active pane.
pub fn register_session(
    sessions: &mut Vec<u32>,
    active_session: &mut Option<u32>,
    panes: &mut Vec<PaneEntry>,
    next_pane_id: &mut u32,
    active_pane: &mut Option<u32>,
    id: u32,
    size: (u16, u16),
)
    requires
        old(panes)@.len() == 0 ==> *old(next_pane_id) < u32::MAX,
    ensures
        final(sessions)@ == old(sessions)@.push(id),
        *final(active_session) == match *old(active_session) {
            Some(a) => Some(a),
            None => Some(id),
        },
        old(panes)@.len() > 0 ==> final(panes)@ == old(panes)@ && *final(next_pane_id)
            == *old(next_pane_id) && *final(active_pane) == *old(active_pane),
        old(panes)@.len() == 0 ==> pushed_terminal(old(panes)@, final(panes)@, *old(next_pane_id), id, size)
            && *final(next_pane_id) == *old(next_pane_id) + 1 && *final(active_pane) == Some(*old(next_pane_id)),
{
    if active_session.is_none() {
        *active_session = Some(id);
    }
    sessions.push(id);
    if panes.len() == 0 {
        let pid = new_terminal_pane(panes, next_pane_id, id, size);
        *active_pane = Some(pid);
    }
}

// ── Closing panes ────────────────────────────────────────────────────────────

/// The panes not among `to_close`, in order.
pub open spec fn kept_panes(s: Seq<PaneEntry>, to_close: Seq<u32>) -> Seq<PaneEntry>
    decreases s.len(),
{
    if s.len() == 0 {
        Seq::empty()
    } else {
        kept_panes(s.drop_last(), to_close) + (if to_close.contains(s.last().id) {
            Seq::empty()
        } else {
            seq![s.last()]
        })
    }
}

/// The sessions of the terminal panes among `to_close`, in pane order.
pub open spec fn closed_sessions(s: Seq<PaneEntry>, to_close: Seq<u32>) -> Seq<u32>
    decreases s.len(),
{
    if s.len() == 0 {
        Seq::empty()
    } else {
        closed_sessions(s.drop_last(), to_close) + (if to_close.contains(s.last().id) {
            match s.last().content {
                PaneContent::Terminal(sid) => seq![sid],
                _ => Seq::empty(),
            }
        } else {
            Seq::empty()
        })
    }
}

/// The sessions not among `killed`, in order.
pub open spec fn remaining_sessions(sessions: Seq<u32>, killed: Seq<u32>) -> Seq<u32>
    decreases sessions.len(),
{
    if sessions.len() == 0 {
        Seq::empty()
    } else {
        remaining_sessions(sessions.drop_last(), killed) + (if killed.contains(sessions.last()) {
            Seq::empty()
        } else {
            seq![sessions.last()]
        })
    }
}

/// The active session after the sessions `killed` end: the first remaining
/// session when the active one ended, else unchanged.
pub open spec fn session_after_close(active: Option<u32>, killed: Seq<u32>, remaining: Seq<u32>) -> Option<u32> {
    match active {
        Some(a) => if killed.contains(a) {
            if remaining.len() > 0 {
                Some(remaining[0])
            } else {
                None
            }
        } else {
            active
        },
        None => None,
    }
}

/// The active pane after the panes `to_close` close, leaving `kept`: the last
/// kept pane when the active one closed, else unchanged.
pub open spec fn pane_after_close(active: Option<u32>, to_close: Seq<u32>, kept: Seq<PaneEntry>) -> Option<u32> {
    match active {
        Some(a) => if to_close.contains(a) {
            if kept.len() > 0 {
                Some(kept.last().id)
            } else {
                None
            }
        } else {
            active
        },
        None => None,
    }
}

fn contains_u32(v: &Vec<u32>, x: u32) -> (b: bool)
    ensures
        b == v@.contains(x),
{
    let mut i: usize = 0;
    while i < v.len()
        invariant
            0 <= i <= v.len(),
            forall|j: int| 0 <= j < i ==> v@[j] != x,
        decreases v.len() - i,
    {
        if v[i] == x {
            return true;
        }
        i = i + 1;
    }
    false
}

/// Splits the panes into those kept and the sessions of the terminals closed.
fn split_panes(panes: &mut Vec<PaneEntry>, to_close: &Vec<u32>) -> (killed: Vec<u32>)
    ensures
        final(panes)@ == kept_panes(old(panes)@, to_close@),
        killed@ == closed_sessions(old(panes)@, to_close@),
{
    let ghost p0 = panes@;
    let mut kept: Vec<PaneEntry> = Vec::new();
    let mut killed: Vec<u32> = Vec::new();
    let mut rest: Vec<PaneEntry> = Vec::new();
    std::mem::swap(&mut rest, panes);
    let mut i: usize = 0;
    let n = rest.len();
    assert(p0.take(0) =~= Seq::<PaneEntry>::empty());
    assert(kept@ =~= kept_panes(p0.take(0), to_close@));
    assert(killed@ =~= closed_sessions(p0.take(0), to_close@));
    while rest.len() > 0
        invariant
            i + rest.len() == n,
            n == p0.len(),
            rest@ == p0.subrange(i as int, n as int),
            kept@ == kept_panes(p0.take(i as int), to_close@),
            killed@ == closed_sessions(p0.take(i as int), to_close@),
        decreases rest.len(),
    {
        let p = rest.remove(0);
        assert(p == p0[i as int]);
        assert(p0.take(i + 1).drop_last() =~= p0.take(i as int));
        assert(p0.take(i + 1).last() == p0[i as int]);
        if contains_u32(to_close, p.id) {
            match &p.content {
                PaneContent::Terminal(sid) => {
                    killed.push(*sid);
                },
                _ => {},
            }
        } else {
            kept.push(p);
        }
        assert(kept@ =~= kept_panes(p0.take(i + 1), to_close@));
        assert(killed@ =~= closed_sessions(p0.take(i + 1), to_close@));
        assert(rest@ =~= p0.subrange(i + 1, n as int));
        i = i + 1;
    }
    assert(p0.take(n as int) =~= p0);
    *panes = kept;
    killed
}

/// Ends the sessions `killed`: the others remain, in order.
fn drop_sessions(sessions: &mut Vec<u32>, killed: &Vec<u32>)
    ensures
        final(sessions)@ == remaining_sessions(old(sessions)@, killed@),
{
    let ghost s0 = sessions@;
    let mut remaining: Vec<u32> = Vec::new();
    let mut j: usize = 0;
    assert(s0.take(0) =~= Seq::<u32>::empty());
    while j < sessions.len()
        invariant
            0 <= j <= sessions.len(),
            sessions@ == s0,
            s0 == old(sessions)@,
            remaining@ == remaining_sessions(s0.take(j as int), killed@),
        decreases sessions.len() - j,
    {
        assert(s0.take(j + 1).drop_last() =~= s0.take(j as int));
        assert(s0.take(j + 1).last() == s0[j as int]);
        if !contains_u32(killed, sessions[j]) {
            remaining.push(sessions[j]);
        }
        assert(remaining@ =~= remaining_sessions(s0.take(j + 1), killed@));
        j = j + 1;
    }
    assert(s0.take(sessions.len() as int) =~= s0);
    *sessions = remaining;
}

/// Moves the active pane to the last remaining pane when it closed.
fn move_active_pane(active_pane: &mut Option<u32>, panes: &Vec<PaneEntry>, to_close: &Vec<u32>)
    ensures
        *final(active_pane) == pane_after_close(*old(active_pane), to_close@, panes@),
{
    if let Some(a) = *active_pane {
        if contains_u32(to_close, a) {
            *active_pane = if panes.len() > 0 {
                Some(panes[panes.len() - 1].id)
            } else {
                None
            };
        }
    }
}

/// Closes the panes `to_close` (the pane quit, or every pane of the split it
/// roots): a zoom on one of them ends; their terminals' sessions end (and are
/// returned, in pane order); the active pane moves to the last remaining pane
/// and the active session to the first remaining session when theirs closed;
/// and when no pane is left but a session is active, that session gets a new
/// pane of size 0×0, which becomes active.
pub fn close_panes(
    panes: &mut Vec<PaneEntry>,
    active_pane: &mut Option<u32>,
    zoomed: &mut Option<u32>,
    sessions: &mut Vec<u32>,
    active_session: &mut Option<u32>,
    next_pane_id: &mut u32,
    to_close: &Vec<u32>,
) -> (killed: Vec<u32>)
    requires
        kept_panes(old(panes)@, to_close@).len() == 0 ==> *old(next_pane_id) < u32::MAX,
    ensures
        *final(zoomed) == match *old(zoomed) {
            Some(z) => if to_close@.contains(z) {
                None
            } else {
                Some(z)
            },
            None => None,
        },
        killed@ == closed_sessions(old(panes)@, to_close@),
        final(sessions)@ == remaining_sessions(old(sessions)@, killed@),
        *final(active_session) == session_after_close(*old(active_session), killed@, final(sessions)@),
        ({
            let kept = kept_panes(old(panes)@, to_close@);
            if kept.len() == 0 && (*final(active_session)) is Some {
                &&& pushed_terminal(kept, final(panes)@, *old(next_pane_id), (*final(active_session))->0, (0, 0))
                &&& *final(next_pane_id) == *old(next_pane_id) + 1
                &&& *final(active_pane) == Some(*old(next_pane_id))
            } else {
                &&& final(panes)@ == kept
                &&& *final(next_pane_id) == *old(next_pane_id)
                &&& *final(active_pane) == pane_after_close(*old(active_pane), to_close@, kept)
            }
        }),
{
    if let Some(z) = *zoomed {
        if contains_u32(to_close, z) {
            *zoomed = None;
        }
    }
    let killed = split_panes(panes, to_close);
    move_active_pane(active_pane, panes, to_close);
    drop_sessions(sessions, &killed);
    if let Some(a) = *active_session {
        if contains_u32(&killed, a) {
            *active_session = if sessions.len() > 0 {
                Some(sessions[0])
            } else {
                None
            };
        }
    }
    if panes.len() == 0 {
        if let Some(sid) = *active_session {
            let pid = new_terminal_pane(panes, next_pane_id, sid, (0, 0));
            *active_pane = Some(pid);
        }
    }
    killed
}

// ── The workspace and directory of a pane ───────────────────────────────────

/// The workspace a pane belongs to. `session_cwd` is the working directory of
/// a terminal pane's session (when the session is found); `path_workspace` is
/// the workspace holding the pane's own path (its session's or deferred
/// terminal's directory, or the file it diffs or resolves), if any.
pub open spec fn pane_group_spec(
    content: PaneContent,
    session_cwd: Option<Seq<char>>,
    path_workspace: Option<u64>,
) -> Option<u64> {
    match content {
        PaneContent::Terminal(_) => match session_cwd {
            Some(c) => if c.len() == 0 {
                None
            } else {
                path_workspace
            },
            None => None,
        },
        PaneContent::DeferredTerminal { cwd, .. } => match cwd {
            Some(_) => path_workspace,
            None => None,
        },
        PaneContent::FileEditor { workspace_id, .. } => workspace_id,
        PaneContent::FileDiff { .. } => path_workspace,
        PaneContent::NoteEditor { workspace_id } => workspace_id,
        PaneContent::ConflictResolver { .. } => path_workspace,
    }
}

/// The workspace a pane belongs to.
pub fn pane_group(content: &PaneContent, session_cwd: Option<&str>, path_workspace: Option<u64>) -> (r: Option<u64>)
    ensures
        r == pane_group_spec(*content, crate::title::opt_view(session_cwd), path_workspace),
{
    match content {
        PaneContent::Terminal(_) => match session_cwd {
            Some(c) => if chars_of(c).len() == 0 {
                None
            } else {
                path_workspace
            },
            None => None,
        },
        PaneContent::DeferredTerminal { cwd, .. } => match cwd {
            Some(_) => path_workspace,
            None => None,
        },
        PaneContent::FileEditor { workspace_id, .. } => *workspace_id,
        PaneContent::FileDiff { .. } => path_workspace,
        PaneContent::NoteEditor { workspace_id } => *workspace_id,
        PaneContent::ConflictResolver { .. } => path_workspace,
    }
}

/// The directory of the first workspace with id `id`.
pub open spec fn workspace_dir(ws: Seq<Workspace>, id: u64) -> Option<Seq<char>>
    decreases ws.len(),
{
    if ws.len() == 0 {
        None
    } else if ws[0].id == id {
        Some(ws[0].path@)
    } else {
        workspace_dir(ws.drop_first(), id)
    }
}

/// The directory of the workspace with id `id` (`None` for no id or no such
/// workspace).
pub fn workspace_path(workspaces: &Vec<Workspace>, id: Option<u64>) -> (r: Option<String>)
    ensures
        opt_str_view(r) == match id {
            Some(i) => workspace_dir(workspaces@, i),
            None => None,
        },
{
    let wid = match id {
        Some(w) => w,
        None => {
            return None;
        },
    };
    let mut i: usize = 0;
    assert(workspaces@.skip(0) =~= workspaces@);
    while i < workspaces.len()
        invariant
            0 <= i <= workspaces.len(),
            id == Some(wid),
            workspace_dir(workspaces@, wid) == workspace_dir(workspaces@.skip(i as int), wid),
        decreases workspaces.len() - i,
    {
        assert(workspaces@.skip(i as int).drop_first() =~= workspaces@.skip(i + 1));
        assert(workspaces@.skip(i as int)[0] == workspaces@[i as int]);
        if workspaces[i].id == wid {
            assert(workspace_dir(workspaces@.skip(i as int), wid) == Some(workspaces@[i as int].path@));
            let p = workspaces[i].path.clone();
            assert(p@ == workspaces@[i as int].path@);
            return Some(p);
        }
        i = i + 1;
    }
    None
}

/// The working directory of a pane: its session's directory (when found and
/// not empty) for a terminal; its directory for a terminal not started yet;
/// the workspace directory, else the file's parent, for an editor; the
/// directory of the workspace holding the file, else its parent, for a diff;
/// the workspace directory for notes; the file's parent for a conflict.
/// `path_workspace_dir` is the directory of the workspace holding a diffed
/// file, if any.
pub open spec fn pane_cwd_spec(
    content: PaneContent,
    session_cwd: Option<Seq<char>>,
    workspaces: Seq<Workspace>,
    path_workspace_dir: Option<Seq<char>>,
) -> Option<Seq<char>> {
    match content {
        PaneContent::Terminal(_) => match session_cwd {
            Some(c) => if c.len() == 0 {
                None
            } else {
                Some(c)
            },
            None => None,
        },
        PaneContent::DeferredTerminal { cwd, .. } => opt_str_view(cwd),
        PaneContent::FileEditor { path, workspace_id, .. } => match workspace_id {
            Some(i) => match workspace_dir(workspaces, i) {
                Some(d) => Some(d),
                None => path_parent(path@),
            },
            None => path_parent(path@),
        },
        PaneContent::FileDiff { path } => match path_workspace_dir {
            Some(d) => Some(d),
            None => path_parent(path@),
        },
        PaneContent::NoteEditor { workspace_id } => match workspace_id {
            Some(i) => workspace_dir(workspaces, i),
            None => None,
        },
        PaneContent::ConflictResolver { path } => path_parent(path@),
    }
}

/// The working directory of a pane, if it has one.
pub fn pane_cwd(
    content: &PaneContent,
    session_cwd: Option<&str>,
    workspaces: &Vec<Workspace>,
    path_workspace_dir: Option<&str>,
) -> (r: Option<String>)
    ensures
        opt_str_view(r) == pane_cwd_spec(
            *content,
            crate::title::opt_view(session_cwd),
            workspaces@,
            crate::title::opt_view(path_workspace_dir),
        ),
{
    match content {
        PaneContent::Terminal(_) => match session_cwd {
            Some(c) => if chars_of(c).len() == 0 {
                None
            } else {
                Some(c.to_string())
            },
            None => None,
        },
        PaneContent::DeferredTerminal { cwd, .. } => match cwd {
            Some(c) => Some(c.clone()),
            None => None,
        },
        PaneContent::FileEditor { path, workspace_id, .. } => match workspace_path(workspaces, *workspace_id) {
            Some(d) => Some(d),
            None => parent_of(path.as_str()),
        },
        PaneContent::FileDiff { path } => match path_workspace_dir {
            Some(d) => Some(d.to_string()),
            None => parent_of(path.as_str()),
        },
        PaneContent::NoteEditor { workspace_id } => workspace_path(workspaces, *workspace_id),
        PaneContent::ConflictResolver { path } => parent_of(path.as_str()),
    }
}

// ── The pane last used in each workspace ─────────────────────────────────────

/// The pane remembered for `group` among `es`: the first entry for it.
pub open spec fn recalled(es: Seq<(Option<u64>, u32)>, group: Option<u64>) -> Option<u32>
    decreases es.len(),
{
    if es.len() == 0 {
        None
    } else if es[0].0 == group {
        Some(es[0].1)
    } else {
        recalled(es.drop_first(), group)
    }
}

/// The pane last used in each workspace (`None` for panes outside any).
pub struct GroupMemory {
    entries: Vec<(Option<u64>, u32)>,
}

impl GroupMemory {
    /// The pane remembered for `group`, as plain values.
    pub closed spec fn recall_spec(&self, group: Option<u64>) -> Option<u32> {
        recalled(self.entries@, group)
    }

    /// A memory with no pane remembered.
    pub fn new() -> (r: Self)
        ensures
            forall|g: Option<u64>| r.recall_spec(g) is None,
    {
        GroupMemory { entries: Vec::new() }
    }

    /// The pane remembered for `group`, if any.
    pub fn recall(&self, group: Option<u64>) -> (r: Option<u32>)
        ensures
            r == self.recall_spec(group),
    {
        let mut i: usize = 0;
        assert(self.entries@.skip(0) =~= self.entries@);
        while i < self.entries.len()
            invariant
                0 <= i <= self.entries.len(),
                recalled(self.entries@, group) == recalled(self.entries@.skip(i as int), group),
            decreases self.entries.len() - i,
        {
            assert(self.entries@.skip(i as int).drop_first() =~= self.entries@.skip(i + 1));
            assert(self.entries@.skip(i as int)[0] == self.entries@[i as int]);
            if self.entries[i].0 == group {
                return Some(self.entries[i].1);
            }
            i = i + 1;
        }
        None
    }

    /// Remembers `pane` as the pane last used in `group`.
    pub fn remember(&mut self, group: Option<u64>, pane: u32)
        ensures
            final(self).recall_spec(group) == Some(pane),
            forall|g: Option<u64>| g != group ==> #[trigger] final(self).recall_spec(g) == old(self).recall_spec(g),
    {
        let ghost es = self.entries@;
        let mut i: usize = 0;
        assert(es.skip(0) =~= es);
        while i < self.entries.len()
            invariant
                0 <= i <= self.entries.len(),
                self.entries@ == es,
                es == old(self).entries@,
                forall|j: int| 0 <= j < i ==> es[j].0 != group,
            decreases self.entries.len() - i,
        {
            if self.entries[i].0 == group {
                self.entries.set(i, (group, pane));
                proof {
                    lemma_recalled_update(es, i as int, group, pane);
                    assert(self.entries@ == es.update(i as int, (group, pane)));
                    assert forall|g: Option<u64>| g != group implies #[trigger] self.recall_spec(g)
                        == recalled(es, g) by {
                        assert(recalled(es.update(i as int, (group, pane)), g) == recalled(es, g));
                    }
                }
                return;
            }
            i = i + 1;
        }
        self.entries.push((group, pane));
        proof {
            lemma_recalled_push(es, group, pane);
        }
    }
}

proof fn lemma_recalled_update(es: Seq<(Option<u64>, u32)>, i: int, group: Option<u64>, pane: u32)
    requires
        0 <= i < es.len(),
        es[i].0 == group,
        forall|j: int| 0 <= j < i ==> es[j].0 != group,
    ensures
        recalled(es.update(i, (group, pane)), group) == Some(pane),
        forall|g: Option<u64>| g != group ==> #[trigger] recalled(es.update(i, (group, pane)), g) == recalled(es, g),
    decreases i,
{
    let u = es.update(i, (group, pane));
    if i == 0 {
        assert(u.drop_first() =~= es.drop_first());
        assert forall|g: Option<u64>| g != group implies #[trigger] recalled(u, g) == recalled(es, g) by {
            assert(u[0].0 == group);
            assert(es[0].0 == group);
        }
    } else {
        assert(u.drop_first() =~= es.drop_first().update(i - 1, (group, pane)));
        lemma_recalled_update(es.drop_first(), i - 1, group, pane);
        assert(es[0].0 != group);
        assert(u[0] == es[0]);
        assert forall|g: Option<u64>| g != group implies #[trigger] recalled(u, g) == recalled(es, g) by {
            if es[0].0 != g {
                assert(recalled(u, g) == recalled(u.drop_first(), g));
                assert(recalled(es, g) == recalled(es.drop_first(), g));
            }
        }
    }
}

proof fn lemma_recalled_push(es: Seq<(Option<u64>, u32)>, group: Option<u64>, pane: u32)
    requires
        forall|j: int| 0 <= j < es.len() ==> es[j].0 != group,
    ensures
        recalled(es.push((group, pane)), group) == Some(pane),
        forall|g: Option<u64>| g != group ==> #[trigger] recalled(es.push((group, pane)), g) == recalled(es, g),
    decreases es.len(),
{
    let u = es.push((group, pane));
    if es.len() == 0 {
        assert(u.drop_first() =~= Seq::<(Option<u64>, u32)>::empty());
        assert(u[0].0 == group);
        assert forall|g: Option<u64>| g != group implies #[trigger] recalled(u, g) == recalled(es, g) by {
            assert(recalled(u, g) == recalled(u.drop_first(), g));
        }
    } else {
        assert(u.drop_first() =~= es.drop_first().push((group, pane)));
        lemma_recalled_push(es.drop_first(), group, pane);
        assert(u[0] == es[0]);
        assert(es[0].0 != group);
        assert forall|g: Option<u64>| g != group implies #[trigger] recalled(u, g) == recalled(es, g) by {
            if es[0].0 != g {
                assert(recalled(u, g) == recalled(u.drop_first(), g));
                assert(recalled(es, g) == recalled(es.drop_first(), g));
            }
        }
    }
}

/// Remembers the active pane as the last used in the active workspace when
/// the pane belongs to it. `active_pane_group` is the workspace of the active
/// pane when that pane is found.
pub fn track_active_pane_group(
    memory: &mut GroupMemory,
    active_pane: Option<u32>,
    active_pane_group: Option<Option<u64>>,
    active_group: Option<u64>,
)
    ensures
        ({
            let tracked_now = active_pane is Some && active_pane_group == Some(active_group);
            &&& tracked_now ==> final(memory).recall_spec(active_group) == active_pane
            &&& forall|g: Option<u64>|
                (!tracked_now || g != active_group) ==> #[trigger] final(memory).recall_spec(g)
                    == old(memory).recall_spec(g)
        }),
{
    if let Some(pid) = active_pane {
        if let Some(g) = active_pane_group {
            if g == active_group {
                memory.remember(active_group, pid);
            }
        }
    }
}

// ── Closing all the sessions (of a workspace) ───────────────────────────────

/// The panes a "close all" closes: those of the filtered workspace (`Some(None)`
/// for the panes outside any), or every pane without a filter. `pane_groups`
/// gives each pane's id and workspace, in pane order.
pub open spec fn close_all_targets(pane_groups: Seq<(u32, Option<u64>)>, filter: Option<Option<u64>>) -> Seq<u32>
    decreases pane_groups.len(),
{
    if pane_groups.len() == 0 {
        Seq::empty()
    } else {
        close_all_targets(pane_groups.drop_last(), filter) + (if filter is None || filter == Some(
            pane_groups.last().1,
        ) {
            seq![pane_groups.last().0]
        } else {
            Seq::empty()
        })
    }
}

/// The panes a "close all" closes.
pub fn close_all_panes_of(pane_groups: &Vec<(u32, Option<u64>)>, filter: Option<Option<u64>>) -> (r: Vec<u32>)
    ensures
        r@ == close_all_targets(pane_groups@, filter),
{
    let mut r: Vec<u32> = Vec::new();
    let mut i: usize = 0;
    assert(pane_groups@.take(0) =~= Seq::<(u32, Option<u64>)>::empty());
    while i < pane_groups.len()
        invariant
            0 <= i <= pane_groups.len(),
            r@ == close_all_targets(pane_groups@.take(i as int), filter),
        decreases pane_groups.len() - i,
    {
        assert(pane_groups@.take(i + 1).drop_last() =~= pane_groups@.take(i as int));
        assert(pane_groups@.take(i + 1).last() == pane_groups@[i as int]);
        let keep = match filter {
            None => true,
            Some(f) => f == pane_groups[i].1,
        };
        if keep {
            r.push(pane_groups[i].0);
        }
        assert(r@ =~= close_all_targets(pane_groups@.take(i + 1), filter));
        i = i + 1;
    }
    assert(pane_groups@.take(i as int) =~= pane_groups@);
    r
}

/// The session of the first pane with id `id` when that pane shows a terminal.
pub open spec fn terminal_of(s: Seq<PaneEntry>, id: u32) -> Option<u32>
    decreases s.len(),
{
    if s.len() == 0 {
        None
    } else if s[0].id == id {
        match s[0].content {
            PaneContent::Terminal(sid) => Some(sid),
            _ => None,
        }
    } else {
        terminal_of(s.drop_first(), id)
    }
}

/// The active session after closing all: the active pane's terminal session,
/// else the first remaining session.
pub open spec fn session_after_close_all(kept: Seq<PaneEntry>, active_pane: Option<u32>, remaining: Seq<u32>) -> Option<u32> {
    let first: Option<u32> = if remaining.len() > 0 {
        Some(remaining[0])
    } else {
        None
    };
    match active_pane {
        Some(p) => match terminal_of(kept, p) {
            Some(sid) => Some(sid),
            None => first,
        },
        None => first,
    }
}

fn terminal_of_pane(panes: &Vec<PaneEntry>, id: u32) -> (r: Option<u32>)
    ensures
        r == terminal_of(panes@, id),
{
    let mut i: usize = 0;
    assert(panes@.skip(0) =~= panes@);
    while i < panes.len()
        invariant
            0 <= i <= panes.len(),
            terminal_of(panes@, id) == terminal_of(panes@.skip(i as int), id),
        decreases panes.len() - i,
    {
        assert(panes@.skip(i as int).drop_first() =~= panes@.skip(i + 1));
        assert(panes@.skip(i as int)[0] == panes@[i as int]);
        if panes[i].id == id {
            return match &panes[i].content {
                PaneContent::Terminal(sid) => Some(*sid),
                _ => None,
            };
        }
        i = i + 1;
    }
    None
}

/// Closes the panes `to_close` for a "close all": their terminals' sessions
/// end (and are returned, in pane order); the active pane moves to the last
/// remaining pane when it closed; the active session becomes the active
/// pane's terminal session, else the first remaining session; and when no
/// pane is left but a session is active, that session gets a new pane of size
/// 0×0, which becomes active.
pub fn close_all_panes(
    panes: &mut Vec<PaneEntry>,
    active_pane: &mut Option<u32>,
    sessions: &mut Vec<u32>,
    active_session: &mut Option<u32>,
    next_pane_id: &mut u32,
    to_close: &Vec<u32>,
) -> (killed: Vec<u32>)
    requires
        kept_panes(old(panes)@, to_close@).len() == 0 ==> *old(next_pane_id) < u32::MAX,
    ensures
        killed@ == closed_sessions(old(panes)@, to_close@),
        final(sessions)@ == remaining_sessions(old(sessions)@, killed@),
        ({
            let kept = kept_panes(old(panes)@, to_close@);
            let pane1 = pane_after_close(*old(active_pane), to_close@, kept);
            let session1 = session_after_close_all(kept, pane1, final(sessions)@);
            &&& *final(active_session) == session1
            &&& if kept.len() == 0 && session1 is Some {
                &&& pushed_terminal(kept, final(panes)@, *old(next_pane_id), session1->0, (0, 0))
                &&& *final(next_pane_id) == *old(next_pane_id) + 1
                &&& *final(active_pane) == Some(*old(next_pane_id))
            } else {
                &&& final(panes)@ == kept
                &&& *final(next_pane_id) == *old(next_pane_id)
                &&& *final(active_pane) == pane1
            }
        }),
{
    let killed = split_panes(panes, to_close);
    move_active_pane(active_pane, panes, to_close);
    drop_sessions(sessions, &killed);
    let first = if sessions.len() > 0 {
        Some(sessions[0])
    } else {
        None
    };
    *active_session = match *active_pane {
        Some(p) => match terminal_of_pane(panes, p) {
            Some(sid) => Some(sid),
            None => first,
        },
        None => first,
    };
    if panes.len() == 0 {
        if let Some(sid) = *active_session {
            let pid = new_terminal_pane(panes, next_pane_id, sid, (0, 0));
            *active_pane = Some(pid);
        }
    }
    killed
}

/// The name of the first workspace with id `id`.
pub open spec fn workspace_name_of(ws: Seq<Workspace>, id: u64) -> Option<Seq<char>>
    decreases ws.len(),
{
    if ws.len() == 0 {
        None
    } else if ws[0].id == id {
        Some(ws[0].name@)
    } else {
        workspace_name_of(ws.drop_first(), id)
    }
}

/// The name the "close all" dialog gives a workspace filter: `Other` for the
/// panes outside any workspace, the workspace's name, or `Unknown`.
pub fn filter_display_name(workspaces: &Vec<Workspace>, filter: Option<u64>) -> (r: String)
    ensures
        r@ == match filter {
            None => "Other"@,
            Some(id) => match workspace_name_of(workspaces@, id) {
                Some(n) => n,
                None => "Unknown"@,
            },
        },
{
    let id = match filter {
        None => {
            return "Other".to_string();
        },
        Some(id) => id,
    };
    let mut i: usize = 0;
    assert(workspaces@.skip(0) =~= workspaces@);
    while i < workspaces.len()
        invariant
            0 <= i <= workspaces.len(),
            filter == Some(id),
            workspace_name_of(workspaces@, id) == workspace_name_of(workspaces@.skip(i as int), id),
        decreases workspaces.len() - i,
    {
        assert(workspaces@.skip(i as int).drop_first() =~= workspaces@.skip(i + 1));
        assert(workspaces@.skip(i as int)[0] == workspaces@[i as int]);
        if workspaces[i].id == id {
            let n = workspaces[i].name.clone();
            assert(workspace_name_of(workspaces@.skip(i as int), id) == Some(workspaces@[i as int].name@));
            return n;
        }
        i = i + 1;
    }
    "Unknown".to_string()
}

/// The "close all" dialog's title: for the sessions of a filtered workspace
/// (by name), or for all.
pub fn close_all_title(filter_name: Option<&str>) -> (r: String)
    ensures
        r@ == match filter_name {
            Some(n) => "Close \""@ + n@ + "\" Sessions"@,
            None => "Close All Sessions"@,
        },
{
    match filter_name {
        Some(n) => {
            let mut t = "Close \"".to_string();
            crate::text::push_str(&mut t, n);
            crate::text::push_str(&mut t, "\" Sessions");
            t
        },
        None => "Close All Sessions".to_string(),
    }
}

/// The "close all" dialog's question, with `session` in the plural unless
/// one session closes.
pub fn close_all_message(count: usize) -> (r: String)
    ensures
        r@ == "This will close "@ + crate::closed_sessions::decimal(count as nat) + (if count == 1 {
            " session"@
        } else {
            " sessions"@
        }) + ". Are you sure?"@,
{
    let mut t = "This will close ".to_string();
    let n = crate::closed_sessions::decimal_string(count as u64);
    crate::text::push_str(&mut t, n.as_str());
    if count == 1 {
        crate::text::push_str(&mut t, " session");
    } else {
        crate::text::push_str(&mut t, " sessions");
    }
    crate::text::push_str(&mut t, ". Are you sure?");
    t
}

// ── Dropping things on the tab bar ──────────────────────────────────────────

/// Moves pane `pane_id` (its first occurrence) to position `to_index` of the
/// list without it, or to the end when that is past the end; nothing happens
/// when no pane has that id.
pub fn move_pane_to(panes: &mut Vec<PaneEntry>, pane_id: u32, to_index: usize)
    ensures
        !crate::layout::has_pane(old(panes)@, pane_id) ==> final(panes)@ == old(panes)@,
        forall|i: int|
            crate::layout::is_first_pane(old(panes)@, pane_id, i) ==> final(panes)@ == old(panes)@.remove(i).insert(
                if to_index < old(panes)@.len() - 1 {
                    to_index as int
                } else {
                    old(panes)@.len() - 1
                },
                old(panes)@[i],
            ),
{
    match crate::layout::pane_position(panes, pane_id) {
        Some(from) => {
            proof {
                assert forall|i: int| crate::layout::is_first_pane(old(panes)@, pane_id, i) implies i == from by {
                    if i < from {
                        assert(old(panes)@[i].id != pane_id);
                    }
                    if from < i {
                        assert(old(panes)@[from as int].id != pane_id);
                    }
                }
            }
            let pane = panes.remove(from);
            let at = if to_index < panes.len() {
                to_index
            } else {
                panes.len()
            };
            panes.insert(at, pane);
        },
        None => {},
    }
}

/// The notes pane of workspace `workspace` (`None` for the notes outside any
/// workspace), if one is open: the first.
pub open spec fn note_pane(s: Seq<PaneEntry>, workspace: Option<u64>) -> Option<u32>
    decreases s.len(),
{
    if s.len() == 0 {
        None
    } else if s[0].content == (PaneContent::NoteEditor { workspace_id: workspace }) {
        Some(s[0].id)
    } else {
        note_pane(s.drop_first(), workspace)
    }
}

/// The open notes pane of a workspace, given its raw id (0 for the notes
/// outside any workspace), if any: dropping notes on the tab bar focuses it
/// rather than opening another.
pub fn note_pane_of(panes: &Vec<PaneEntry>, raw_workspace: u64) -> (r: Option<u32>)
    ensures
        r == note_pane(panes@, if raw_workspace == 0 { None } else { Some(raw_workspace) }),
{
    let ws = if raw_workspace == 0 {
        None
    } else {
        Some(raw_workspace)
    };
    let mut i: usize = 0;
    assert(panes@.skip(0) =~= panes@);
    while i < panes.len()
        invariant
            0 <= i <= panes.len(),
            ws == (if raw_workspace == 0 { None } else { Some(raw_workspace) }),
            note_pane(panes@, ws) == note_pane(panes@.skip(i as int), ws),
        decreases panes.len() - i,
    {
        assert(panes@.skip(i as int).drop_first() =~= panes@.skip(i + 1));
        assert(panes@.skip(i as int)[0] == panes@[i as int]);
        let found = match &panes[i].content {
            PaneContent::NoteEditor { workspace_id } => *workspace_id == ws,
            _ => false,
        };
        if found {
            return Some(panes[i].id);
        }
        i = i + 1;
    }
    None
}

/// Opens a new pane showing `content` under the next pane id, at `at_index`
/// (kept within the list) or at the end, and returns its id.
pub fn open_pane(panes: &mut Vec<PaneEntry>, next_pane_id: &mut u32, content: PaneContent, at_index: Option<usize>) -> (id: u32)
    requires
        *old(next_pane_id) < u32::MAX,
    ensures
        id == *old(next_pane_id),
        *final(next_pane_id) == *old(next_pane_id) + 1,
        final(panes)@.len() == old(panes)@.len() + 1,
        ({
            let at = crate::layout::insert_position(old(panes)@.len(), at_index);
            &&& final(panes)@[at].id == id
            &&& final(panes)@[at].content == content
            &&& final(panes)@[at].last_size == (0u16, 0u16)
            &&& final(panes)@[at].labels@.len() == 0
            &&& final(panes)@.remove(at) == old(panes)@
        }),
{
    let id = *next_pane_id;
    *next_pane_id = id + 1;
    let entry = PaneEntry { id, content, last_size: (0, 0), labels: Vec::new() };
    crate::layout::insert_pane_entry(panes, entry, at_index);
    proof {
        let at = crate::layout::insert_position(old(panes)@.len(), at_index);
        assert(panes@.remove(at) =~= old(panes)@);
    }
    id
}

// ── Where a new session starts ───────────────────────────────────────────────

/// A session's working directory as a directory to start in: none when it is
/// empty.
pub fn nonempty_cwd(cwd: &str) -> (r: Option<String>)
    ensures
        opt_str_view(r) == (if cwd@.len() == 0 {
            None
        } else {
            Some(cwd@)
        }),
{
    if chars_of(cwd).len() == 0 {
        None
    } else {
        Some(cwd.to_string())
    }
}

/// Where a new session started from the sidebar runs: the active pane's
/// directory, else the active workspace's directory, else nowhere in
/// particular.
pub fn new_session_cwd(active_pane_cwd: Option<String>, active_workspace_dir: Option<String>) -> (r: Option<String>)
    ensures
        r == (if active_pane_cwd is Some {
            active_pane_cwd
        } else {
            active_workspace_dir
        }),
{
    match active_pane_cwd {
        Some(c) => Some(c),
        None => active_workspace_dir,
    }
}


// ── Saving the pane layout ──────────────────────────────────────────────────

/// The pane ids a saved layout numbers: every pane but diff panes, in order.
pub open spec fn saved_pane_ids(panes: Seq<PaneEntry>) -> Seq<u32>
    decreases panes.len(),
{
    if panes.len() == 0 {
        Seq::empty()
    } else {
        saved_pane_ids(panes.drop_last()) + (if panes.last().content is FileDiff {
            Seq::empty()
        } else {
            seq![panes.last().id]
        })
    }
}

/// The number a saved layout gives pane `id`: its last position in `ids`.
pub open spec fn saved_index(ids: Seq<u32>, id: u32) -> Option<usize>
    decreases ids.len(),
{
    if ids.len() == 0 {
        None
    } else if ids.last() == id {
        Some((ids.len() - 1) as usize)
    } else {
        saved_index(ids.drop_last(), id)
    }
}

/// The number the saved layout gives pane `pane_id` (for the active pane and
/// each group's last pane): its position among the panes that are not diff
/// panes, the last such one when ids repeat. Conflict panes take a number
/// though they are not written.
pub fn saved_pane_index(panes: &Vec<PaneEntry>, pane_id: u32) -> (r: Option<usize>)
    ensures
        r == saved_index(saved_pane_ids(panes@), pane_id),
{
    let mut r: Option<usize> = None;
    let mut count: usize = 0;
    let mut i: usize = 0;
    assert(panes@.take(0) =~= Seq::<PaneEntry>::empty());
    while i < panes.len()
        invariant
            0 <= i <= panes.len(),
            count == saved_pane_ids(panes@.take(i as int)).len(),
            count <= i,
            r == saved_index(saved_pane_ids(panes@.take(i as int)), pane_id),
        decreases panes.len() - i,
    {
        let ghost ids0 = saved_pane_ids(panes@.take(i as int));
        assert(panes@.take(i + 1).drop_last() =~= panes@.take(i as int));
        assert(panes@.take(i + 1).last() == panes@[i as int]);
        let is_diff = match &panes[i].content {
            PaneContent::FileDiff { .. } => true,
            _ => false,
        };
        if !is_diff {
            let ghost ids1 = ids0.push(panes@[i as int].id);
            assert(saved_pane_ids(panes@.take(i + 1)) =~= ids1);
            assert(ids1.drop_last() =~= ids0);
            if panes[i].id == pane_id {
                r = Some(count);
            }
            count = count + 1;
        } else {
            assert(saved_pane_ids(panes@.take(i + 1)) =~= ids0);
        }
        i = i + 1;
    }
    assert(panes@.take(i as int) =~= panes@);
    r
}

/// Whether a saved layout writes a pane: not a diff or conflict pane, and a
/// terminal only when its session is among those saved.
pub open spec fn pane_written(content: PaneContent, session_saved: bool) -> bool {
    match content {
        PaneContent::Terminal(_) => session_saved,
        PaneContent::FileDiff { .. } => false,
        PaneContent::ConflictResolver { .. } => false,
        _ => true,
    }
}

/// Whether a saved layout writes a pane; `session_saved` tells, for a
/// terminal, whether its session is among the sessions saved.
pub fn writes_pane(content: &PaneContent, session_saved: bool) -> (b: bool)
    ensures
        b == pane_written(*content, session_saved),
{
    match content {
        PaneContent::Terminal(_) => session_saved,
        PaneContent::FileDiff { .. } => false,
        PaneContent::ConflictResolver { .. } => false,
        _ => true,
    }
}

} // verus!
