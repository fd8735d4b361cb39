//! Panes, sessions, workspaces and windows: which pane is active, where a tab
//! goes, and which window owns a workspace.
use vstd::prelude::*;

verus! {

/// What a pane shows.
pub enum PaneContent {
    /// A terminal session, by session id.
    Terminal(u32),
    /// A terminal restored from a saved layout whose shell is not started yet.
    DeferredTerminal { cwd: Option<String>, saved_title: Option<String> },
    FileEditor { path: String, dirty: bool, save_error: bool, workspace_id: Option<u64> },
    FileDiff { path: String },
    NoteEditor { workspace_id: Option<u64> },
    ConflictResolver { path: String },
}

/// A pane (a tab).
pub struct PaneEntry {
    pub id: u32,
    pub content: PaneContent,
    /// Columns and rows.
    pub last_size: (u16, u16),
    pub labels: Vec<u32>,
}

/// A workspace: a named, coloured directory.
pub struct Workspace {
    pub id: u64,
    pub name: String,
    pub path: String,
    pub color: [u8; 3],
    /// The extra window that hosts the workspace, if any.
    pub host_window_id: Option<u64>,
}

/// An extra window dedicated to one workspace.
pub struct ExtraWindow {
    pub id: u64,
    pub workspace_id: u64,
    /// The active pane of the window's view.
    pub active_pane_id: Option<u32>,
}

/// `i` is the first position of a pane with id `id`.
pub open spec fn is_first_pane(s: Seq<PaneEntry>, id: u32, i: int) -> bool {
    0 <= i < s.len() && s[i].id == id && forall|j: int| 0 <= j < i ==> s[j].id != id
}

/// Some pane has id `id`.
pub open spec fn has_pane(s: Seq<PaneEntry>, id: u32) -> bool {
    exists|i: int| 0 <= i < s.len() && s[i].id == id
}

/// The first position of a pane with id `id`, if any.
pub fn pane_position(panes: &Vec<PaneEntry>, id: u32) -> (r: Option<usize>)
    ensures
        r matches Some(i) ==> is_first_pane(panes@, id, i as int),
        r is None <==> !has_pane(panes@, id),
{
    let mut i: usize = 0;
    while i < panes.len()
        invariant
            0 <= i <= panes.len(),
            forall|j: int| 0 <= j < i ==> panes@[j].id != id,
        decreases panes.len() - i,
    {
        if panes[i].id == id {
            return Some(i);
        }
        i = i + 1;
    }
    None
}

/// Where a pane inserted at `at_index` goes in a list of `len` panes: that
/// index, kept within the list, or the end.
pub open spec fn insert_position(len: nat, at_index: Option<usize>) -> int {
    match at_index {
        Some(i) => if i < len {
            i as int
        } else {
            len as int
        },
        None => len as int,
    }
}

/// Inserts a pane at `at_index` (kept within the list), or at the end.
pub fn insert_pane_entry(panes: &mut Vec<PaneEntry>, entry: PaneEntry, at_index: Option<usize>)
    ensures
        final(panes)@ == old(panes)@.insert(insert_position(old(panes)@.len(), at_index), entry),
{
    match at_index {
        Some(idx) => {
            let idx = if idx < panes.len() {
                idx
            } else {
                panes.len()
            };
            panes.insert(idx, entry);
        },
        None => {
            let ghost before = panes@;
            panes.push(entry);
            assert(panes@ =~= before.insert(before.len() as int, entry));
        },
    }
}

/// Where a tab dragged from position `from` to slot `to_index` lands, once it
/// is out of a list that then holds `len_after` panes.
pub open spec fn reorder_target(from: int, to_index: usize, len_after: int) -> int {
    let t: int = if to_index > from {
        to_index - 1
    } else {
        to_index as int
    };
    if t < len_after {
        t
    } else {
        len_after
    }
}

/// Moves the tab of pane `from_pane_id` to slot `to_index` (a slot counted
/// before the move); nothing happens when no pane has that id.
pub fn reorder_tab(panes: &mut Vec<PaneEntry>, from_pane_id: u32, to_index: usize)
    ensures
        !has_pane(old(panes)@, from_pane_id) ==> final(panes)@ == old(panes)@,
        forall|i: int|
            is_first_pane(old(panes)@, from_pane_id, i) ==> final(panes)@ == old(panes)@.remove(
                i,
            ).insert(reorder_target(i, to_index, old(panes)@.len() - 1), old(panes)@[i]),
{
    match pane_position(panes, from_pane_id) {
        Some(from) => {
            let pane = panes.remove(from);
            let insert_at = if to_index > from {
                to_index - 1
            } else {
                to_index
            };
            let insert_at = if insert_at < panes.len() {
                insert_at
            } else {
                panes.len()
            };
            panes.insert(insert_at, pane);
        },
        None => {},
    }
}

/// `labels` with `label` removed at its first occurrence, or added at the end
/// when absent.
pub open spec fn toggled(labels: Seq<u32>, label: u32) -> Seq<u32> {
    if labels.contains(label) {
        labels.remove(choose|k: int| 0 <= k < labels.len() && labels[k] == label && forall|j: int|
            0 <= j < k ==> labels[j] != label)
    } else {
        labels.push(label)
    }
}

fn toggle_in(labels: &mut Vec<u32>, label: u32)
    ensures
        final(labels)@ == toggled(old(labels)@, label),
{
    let mut k: usize = 0;
    while k < labels.len()
        invariant
            0 <= k <= labels.len(),
            labels@ == old(labels)@,
            forall|j: int| 0 <= j < k ==> labels@[j] != label,
        decreases labels.len() - k,
    {
        if labels[k] == label {
            let ghost s = labels@;
            proof {
                assert(s.contains(label));
                let c = choose|c: int| 0 <= c < s.len() && s[c] == label && forall|j: int|
                    0 <= j < c ==> s[j] != label;
                assert(c == k) by {
                    if c < k {
                        assert(s[c] != label);
                    }
                    if c > k {
                        assert(s[k as int] != label);
                    }
                }
            }
            labels.remove(k);
            return;
        }
        k = k + 1;
    }
    labels.push(label);
}

/// Toggles label `label_id` on pane `pane_id`: removed when the pane has it,
/// else added. Returns whether the pane was found (the layout then needs saving).
pub fn toggle_pane_label(panes: &mut Vec<PaneEntry>, pane_id: u32, label_id: u32) -> (found: bool)
    ensures
        found == has_pane(old(panes)@, pane_id),
        !found ==> final(panes)@ == old(panes)@,
        final(panes)@.len() == old(panes)@.len(),
        forall|i: int|
            is_first_pane(old(panes)@, pane_id, i) ==> {
                &&& final(panes)@[i].labels@ == toggled(old(panes)@[i].labels@, label_id)
                &&& final(panes)@[i].id == old(panes)@[i].id
                &&& final(panes)@[i].content == old(panes)@[i].content
                &&& final(panes)@[i].last_size == old(panes)@[i].last_size
                &&& forall|j: int| 0 <= j < old(panes)@.len() && j != i ==> final(panes)@[j]
                    == old(panes)@[j]
            },
{
    match pane_position(panes, pane_id) {
        Some(i) => {
            let mut p = panes.remove(i);
            toggle_in(&mut p.labels, label_id);
            panes.insert(i, p);
            true
        },
        None => false,
    }
}

/// The first position of `id` among `ids`, if any.
pub open spec fn first_index_of(ids: Seq<u32>, id: u32, i: int) -> bool {
    0 <= i < ids.len() && ids[i] == id && forall|j: int| 0 <= j < i ==> ids[j] != id
}

/// The position of the active session among the sessions (by id), if any.
pub fn active_session_index(session_ids: &Vec<u32>, active_id: Option<u32>) -> (r: Option<usize>)
    ensures
        r matches Some(i) ==> active_id is Some && first_index_of(session_ids@, active_id->0, i as int),
        r is None <==> (active_id is None || !session_ids@.contains(active_id->0)),
{
    let id = match active_id {
        Some(id) => id,
        None => return None,
    };
    let mut i: usize = 0;
    while i < session_ids.len()
        invariant
            0 <= i <= session_ids.len(),
            active_id == Some(id),
            forall|j: int| 0 <= j < i ==> session_ids@[j] != id,
        decreases session_ids.len() - i,
    {
        if session_ids[i] == id {
            return Some(i);
        }
        i = i + 1;
    }
    proof {
        if session_ids@.contains(id) {
            let j = choose|j: int| 0 <= j < session_ids@.len() && session_ids@[j] == id;
            assert(session_ids@[j] != id);
        }
    }
    None
}

/// Each session's is-active flag: set exactly for the active session.
pub fn session_active_flags(session_ids: &Vec<u32>, active_id: Option<u32>) -> (flags: Vec<bool>)
    ensures
        flags@.len() == session_ids@.len(),
        forall|i: int| 0 <= i < flags@.len() ==> flags@[i] == (active_id == Some(session_ids@[i])),
{
    let mut flags: Vec<bool> = Vec::new();
    let mut i: usize = 0;
    while i < session_ids.len()
        invariant
            0 <= i <= session_ids.len(),
            flags@.len() == i,
            forall|j: int| 0 <= j < i ==> flags@[j] == (active_id == Some(session_ids@[j])),
        decreases session_ids.len() - i,
    {
        let f = match active_id {
            Some(a) => a == session_ids[i],
            None => false,
        };
        flags.push(f);
        i = i + 1;
    }
    flags
}

/// Whether pane `pane_id` is active in the main window or in an extra window.
pub fn is_pane_active_in_any_window(
    main_active_pane: Option<u32>,
    windows: &Vec<ExtraWindow>,
    pane_id: u32,
) -> (b: bool)
    ensures
        b == (main_active_pane == Some(pane_id) || exists|w: int|
            0 <= w < windows@.len() && windows@[w].active_pane_id == Some(pane_id)),
{
    if main_active_pane == Some(pane_id) {
        return true;
    }
    let mut w: usize = 0;
    while w < windows.len()
        invariant
            0 <= w <= windows.len(),
            main_active_pane != Some(pane_id),
            forall|j: int| 0 <= j < w ==> windows@[j].active_pane_id != Some(pane_id),
        decreases windows.len() - w,
    {
        if windows[w].active_pane_id == Some(pane_id) {
            return true;
        }
        w = w + 1;
    }
    false
}

/// Activates pane `pid`; when it shows a terminal, its session becomes the
/// active session. Returns whether the active session changed that way (the
/// sessions' flags then need updating).
pub fn activate_pane(
    panes: &Vec<PaneEntry>,
    pid: u32,
    active_pane: &mut Option<u32>,
    active_session: &mut Option<u32>,
) -> (terminal: bool)
    ensures
        *final(active_pane) == Some(pid),
        terminal <==> exists|i: int|
            is_first_pane(panes@, pid, i) && panes@[i].content is Terminal,
        terminal ==> forall|i: int|
            is_first_pane(panes@, pid, i) ==> *final(active_session) == Some(
                panes@[i].content->Terminal_0,
            ),
        !terminal ==> *final(active_session) == *old(active_session),
{
    *active_pane = Some(pid);
    match pane_position(panes, pid) {
        Some(i) => match &panes[i].content {
            PaneContent::Terminal(sid) => {
                *active_session = Some(*sid);
                true
            },
            _ => false,
        },
        None => false,
    }
}

/// What switching to a group does.
pub enum GroupTarget {
    /// Activate this pane.
    Activate(u32),
    /// No pane of the group is open: start a new terminal in it.
    Spawn,
}

/// The ids of the panes whose group is `group`, in order.
pub open spec fn panes_in_group(pane_groups: Seq<(u32, Option<u64>)>, group: Option<u64>) -> Seq<u32>
    decreases pane_groups.len(),
{
    if pane_groups.len() == 0 {
        Seq::empty()
    } else {
        panes_in_group(pane_groups.drop_last(), group) + (if pane_groups.last().1 == group {
            seq![pane_groups.last().0]
        } else {
            Seq::empty()
        })
    }
}

/// The pane to show when switching to `group`, given each pane's group (in
/// pane order) and the pane last active in the group: that pane when it is
/// still in the group, else the group's first pane, else none (spawn).
pub open spec fn group_target(
    pane_groups: Seq<(u32, Option<u64>)>,
    group: Option<u64>,
    last_pane: Option<u32>,
) -> GroupTarget {
    let in_group = panes_in_group(pane_groups, group);
    if last_pane is Some && in_group.contains(last_pane->0) {
        GroupTarget::Activate(last_pane->0)
    } else if in_group.len() > 0 {
        GroupTarget::Activate(in_group[0])
    } else {
        GroupTarget::Spawn
    }
}

/// Decides what switching to `group` shows.
pub fn choose_group_target(
    pane_groups: &Vec<(u32, Option<u64>)>,
    group: Option<u64>,
    last_pane: Option<u32>,
) -> (r: GroupTarget)
    ensures
        r == group_target(pane_groups@, group, last_pane),
{
    let mut in_group: Vec<u32> = Vec::new();
    let mut i: usize = 0;
    assert(pane_groups@.take(0) =~= Seq::<(u32, Option<u64>)>::empty());
    while i < pane_groups.len()
        invariant
            0 <= i <= pane_groups.len(),
            in_group@ == panes_in_group(pane_groups@.take(i as int), group),
        decreases pane_groups.len() - i,
    {
        assert(pane_groups@.take(i + 1).drop_last() =~= pane_groups@.take(i as int));
        if pane_groups[i].1 == group {
            in_group.push(pane_groups[i].0);
        }
        assert(in_group@ =~= panes_in_group(pane_groups@.take(i + 1), group));
        i = i + 1;
    }
    assert(pane_groups@.take(i as int) =~= pane_groups@);
    if let Some(lp) = last_pane {
        let mut k: usize = 0;
        while k < in_group.len()
            invariant
                0 <= k <= in_group.len(),
                in_group@ == panes_in_group(pane_groups@, group),
                last_pane == Some(lp),
                forall|j: int| 0 <= j < k ==> in_group@[j] != lp,
            decreases in_group.len() - k,
        {
            if in_group[k] == lp {
                assert(in_group@.contains(lp));
                return GroupTarget::Activate(lp);
            }
            k = k + 1;
        }
        proof {
            if in_group@.contains(lp) {
                let j = choose|j: int| 0 <= j < in_group@.len() && in_group@[j] == lp;
                assert(in_group@[j] != lp);
            }
        }
    }
    if in_group.len() > 0 {
        GroupTarget::Activate(in_group[0])
    } else {
        GroupTarget::Spawn
    }
}

/// Which window shows a pane or workspace.
pub enum Route {
    /// The extra window at this position hosts it, and it is not this window.
    FocusExtra(usize),
    /// The main window hosts it, and this is an extra window.
    FocusMain,
    /// This window hosts it.
    Local,
}

/// The first extra window hosting workspace `ws`.
pub open spec fn is_first_host(windows: Seq<ExtraWindow>, ws: u64, i: int) -> bool {
    0 <= i < windows.len() && windows[i].workspace_id == ws && forall|j: int|
        0 <= j < i ==> windows[j].workspace_id != ws
}

/// Some extra window hosts workspace `ws`.
pub open spec fn hosted(windows: Seq<ExtraWindow>, ws: u64) -> bool {
    exists|i: int| 0 <= i < windows.len() && windows[i].workspace_id == ws
}

/// Where something of `group` is shown, seen from the window `current_window`
/// (`None` for the main window): the extra window that hosts the group's
/// workspace, else the main window.
pub open spec fn route_of(windows: Seq<ExtraWindow>, group: Option<u64>, current_window: Option<u64>, r: Route) -> bool {
    match group {
        Some(ws) => if hosted(windows, ws) {
            forall|i: int|
                is_first_host(windows, ws, i) ==> r == (if current_window == Some(windows[i].id) {
                    Route::Local
                } else {
                    Route::FocusExtra(i as usize)
                })
        } else {
            r == (if current_window is Some {
                Route::FocusMain
            } else {
                Route::Local
            })
        },
        None => r == (if current_window is Some {
            Route::FocusMain
        } else {
            Route::Local
        }),
    }
}

/// The position of the first extra window hosting workspace `ws`.
pub fn host_window_index(windows: &Vec<ExtraWindow>, ws: u64) -> (r: Option<usize>)
    ensures
        r matches Some(i) ==> is_first_host(windows@, ws, i as int),
        r is None <==> !hosted(windows@, ws),
{
    let mut i: usize = 0;
    while i < windows.len()
        invariant
            0 <= i <= windows.len(),
            forall|j: int| 0 <= j < i ==> windows@[j].workspace_id != ws,
        decreases windows.len() - i,
    {
        if windows[i].workspace_id == ws {
            return Some(i);
        }
        i = i + 1;
    }
    None
}

/// Decides which window shows something of `group`.
pub fn route_for_group(windows: &Vec<ExtraWindow>, group: Option<u64>, current_window: Option<u64>) -> (r: Route)
    ensures
        route_of(windows@, group, current_window, r),
        r matches Route::FocusExtra(i) ==> group is Some && is_first_host(windows@, group->0, i as int),
{
    if let Some(ws) = group {
        if let Some(idx) = host_window_index(windows, ws) {
            if current_window == Some(windows[idx].id) {
                return Route::Local;
            } else {
                return Route::FocusExtra(idx);
            }
        }
    }
    if current_window.is_some() {
        Route::FocusMain
    } else {
        Route::Local
    }
}

/// Closes the extra window hosting workspace `ws_id` and releases the
/// workspace: the first such window is removed, and the first workspace with
/// that id no longer names a host window.
pub fn close_extra_window_for_workspace(
    windows: &mut Vec<ExtraWindow>,
    workspaces: &mut Vec<Workspace>,
    ws_id: u64,
)
    ensures
        !hosted(old(windows)@, ws_id) ==> final(windows)@ == old(windows)@,
        forall|i: int|
            is_first_host(old(windows)@, ws_id, i) ==> final(windows)@ == old(windows)@.remove(i),
        final(workspaces)@.len() == old(workspaces)@.len(),
        forall|j: int|
            0 <= j < old(workspaces)@.len() ==> {
                let w = old(workspaces)@[j];
                let w2 = #[trigger] final(workspaces)@[j];
                if w.id == ws_id && forall|k: int| 0 <= k < j ==> old(workspaces)@[k].id != ws_id {
                    w2 == Workspace { host_window_id: None, ..w }
                } else {
                    w2 == w
                }
            },
{
    if let Some(idx) = host_window_index(windows, ws_id) {
        proof {
            assert forall|i: int| is_first_host(old(windows)@, ws_id, i) implies i == idx by {
                if i < idx {
                    assert(old(windows)@[i].workspace_id != ws_id);
                }
                if i > idx {
                    assert(old(windows)@[idx as int].workspace_id != ws_id);
                }
            }
        }
        windows.remove(idx);
    }
    let mut j: usize = 0;
    while j < workspaces.len()
        invariant
            !hosted(old(windows)@, ws_id) ==> windows@ == old(windows)@,
            forall|i: int|
                is_first_host(old(windows)@, ws_id, i) ==> windows@ == old(windows)@.remove(i),
            0 <= j <= workspaces.len(),
            workspaces@ == old(workspaces)@,
            forall|k: int| 0 <= k < j ==> old(workspaces)@[k].id != ws_id,
        decreases workspaces.len() - j,
    {
        if workspaces[j].id == ws_id {
            let mut w = workspaces.remove(j);
            w.host_window_id = None;
            workspaces.insert(j, w);
            return;
        }
        j = j + 1;
    }
}

// ── What moving, toggling and activating promise ────────────────────────────

/// Moving a tab keeps the same panes (as a multiset) and their number; the
/// moved pane lands within the list.
pub proof fn lemma_reorder_is_permutation(s: Seq<PaneEntry>, i: int, to_index: usize)
    requires
        0 <= i < s.len(),
    ensures
        0 <= reorder_target(i, to_index, s.len() - 1) <= s.len() - 1,
        s.remove(i).insert(reorder_target(i, to_index, s.len() - 1), s[i]).to_multiset() == s.to_multiset(),
        s.remove(i).insert(reorder_target(i, to_index, s.len() - 1), s[i]).len() == s.len(),
{
    broadcast use vstd::seq_lib::group_to_multiset_ensures;
    broadcast use vstd::multiset::group_multiset_axioms;

    let t = reorder_target(i, to_index, s.len() - 1);
    let r = s.remove(i);
    vstd::seq_lib::to_multiset_remove(s, i);
    vstd::seq_lib::to_multiset_insert(r, t, s[i]);
    assert(s.to_multiset().count(s[i]) > 0);
    assert(r.insert(t, s[i]).to_multiset() =~= s.to_multiset());
}


/// A tab dragged from position `i` to slot `to_index` (a slot counted before
/// the move) lands right before the tab that was at that slot, or last when the
/// slot is past the end; dropped on its own slot or the next one it stays put.
/// Its new position is `to_index - 1` when the slot is after it, else
/// `to_index`, capped at the last position.
pub proof fn lemma_reorder_lands_before_slot(s: Seq<PaneEntry>, i: int, to_index: usize)
    requires
        0 <= i < s.len(),
    ensures
        ({
            let q = reorder_target(i, to_index, s.len() - 1);
            let r = s.remove(i).insert(q, s[i]);
            &&& q == (if to_index > i {
                if to_index - 1 < s.len() - 1 {
                    to_index - 1
                } else {
                    s.len() - 1
                }
            } else {
                if to_index < s.len() - 1 {
                    to_index as int
                } else {
                    s.len() - 1
                }
            })
            &&& r.len() == s.len()
            &&& r[q] == s[i]
            &&& (to_index < s.len() && to_index != i ==> q + 1 < r.len() && r[q + 1] == s[to_index as int])
            &&& (to_index >= s.len() ==> q == s.len() - 1)
            &&& (to_index == i || to_index == i + 1 ==> r == s)
        }),
{
    let q = reorder_target(i, to_index, s.len() - 1);
    let t = s.remove(i);
    let r = t.insert(q, s[i]);
    assert(0 <= q <= t.len());
    assert(r[q] == s[i]);
    if to_index < s.len() && to_index != i {
        if to_index > i {
            assert(q == to_index - 1);
            assert(t[to_index - 1] == s[to_index as int]);
            assert(r[q + 1] == t[q]);
        } else {
            assert(q == to_index);
            assert(t[to_index as int] == s[to_index as int]);
            assert(r[q + 1] == t[q]);
        }
    }
    if to_index == i || to_index == i + 1 {
        assert(q == i);
        assert(r =~= s);
    }
}

/// On labels without repeats, toggling keeps them without repeats; toggling
/// a label twice gives the labels back when the pane lacked it, and the same
/// labels, that one moved to the end, when it had it.
pub proof fn lemma_toggle_twice(labels: Seq<u32>, label: u32)
    requires
        labels.no_duplicates(),
    ensures
        toggled(labels, label).no_duplicates(),
        !labels.contains(label) ==> toggled(toggled(labels, label), label) == labels,
        labels.contains(label) ==> toggled(toggled(labels, label), label).to_multiset()
            == labels.to_multiset(),
        toggled(labels, label).contains(label) <==> !labels.contains(label),
{
    broadcast use vstd::seq_lib::group_to_multiset_ensures;
    broadcast use vstd::multiset::group_multiset_axioms;

    if !labels.contains(label) {
        let p = labels.push(label);
        assert(p[labels.len() as int] == label);
        assert(p.contains(label));
        assert(p.no_duplicates()) by {
            assert forall|a: int, b: int| 0 <= a < p.len() && 0 <= b < p.len() && a != b implies p[a]
                != p[b] by {
                if a < labels.len() && b < labels.len() {
                    assert(p[a] == labels[a] && p[b] == labels[b]);
                } else if a < labels.len() {
                    assert(p[a] == labels[a]);
                } else {
                    assert(p[b] == labels[b]);
                }
            }
        }
        let k = choose|k: int| 0 <= k < p.len() && p[k] == label && forall|j: int|
            0 <= j < k ==> p[j] != label;
        assert(k == labels.len()) by {
            if k < labels.len() {
                assert(labels[k] == label);
            }
        }
        assert(p.remove(k) =~= labels);
    } else {
        let k = choose|k: int| 0 <= k < labels.len() && labels[k] == label && forall|j: int|
            0 <= j < k ==> labels[j] != label;
        let r = labels.remove(k);
        assert(toggled(labels, label) == r);
        assert(r.no_duplicates()) by {
            assert forall|a: int, b: int| 0 <= a < r.len() && 0 <= b < r.len() && a != b implies r[a]
                != r[b] by {
                let a2 = if a < k { a } else { a + 1 };
                let b2 = if b < k { b } else { b + 1 };
                assert(r[a] == labels[a2] && r[b] == labels[b2]);
            }
        }
        assert(!r.contains(label)) by {
            if r.contains(label) {
                let a = choose|a: int| 0 <= a < r.len() && r[a] == label;
                let a2 = if a < k { a } else { a + 1 };
                assert(labels[a2] == label);
            }
        }
        vstd::seq_lib::to_multiset_remove(labels, k);
        assert(toggled(r, label) == r.push(label));
        assert(r.push(label).to_multiset() =~= r.to_multiset().insert(label));
        assert(labels.to_multiset().count(label) > 0);
        assert(r.to_multiset().insert(label) =~= labels.to_multiset());
    }
}

/// With session ids that do not repeat, at most one session is flagged
/// active, and exactly one when the active id is among them.
pub proof fn lemma_one_active_session(ids: Seq<u32>, active: Option<u32>)
    requires
        ids.no_duplicates(),
    ensures
        forall|i: int, j: int|
            0 <= i < ids.len() && 0 <= j < ids.len() && active == Some(ids[i]) && active == Some(ids[j])
                ==> i == j,
        active matches Some(a) && ids.contains(a) ==> exists|i: int|
            0 <= i < ids.len() && active == Some(#[trigger] ids[i]),
{
}

proof fn lemma_first_host_unique(windows: Seq<ExtraWindow>, ws: u64, a: int, b: int)
    requires
        is_first_host(windows, ws, a),
        is_first_host(windows, ws, b),
    ensures
        a == b,
{
    if a < b {
        assert(windows[a].workspace_id != ws);
    }
    if b < a {
        assert(windows[b].workspace_id != ws);
    }
}

/// The route of a group is one: two routes that both fit are the same.
pub proof fn lemma_route_unique(windows: Seq<ExtraWindow>, group: Option<u64>, current_window: Option<u64>, r1: Route, r2: Route)
    requires
        route_of(windows, group, current_window, r1),
        route_of(windows, group, current_window, r2),
    ensures
        r1 == r2,
{
    if let Some(ws) = group {
        if hosted(windows, ws) {
            let i = choose|i: int| 0 <= i < windows.len() && windows[i].workspace_id == ws;
            lemma_some_first_host(windows, ws, i);
            let f = choose|f: int| is_first_host(windows, ws, f);
            assert(r1 == r2) by {
                assert(is_first_host(windows, ws, f));
            }
        }
    }
}

proof fn lemma_some_first_host(windows: Seq<ExtraWindow>, ws: u64, i: int)
    requires
        0 <= i < windows.len(),
        windows[i].workspace_id == ws,
    ensures
        exists|f: int| is_first_host(windows, ws, f),
    decreases i,
{
    if forall|j: int| 0 <= j < i ==> windows[j].workspace_id != ws {
        assert(is_first_host(windows, ws, i));
    } else {
        let j = choose|j: int| 0 <= j < i && windows[j].workspace_id == ws;
        lemma_some_first_host(windows, ws, j);
    }
}

/// Something of a workspace hosted by the current extra window is handled in
/// this window; something of no hosted workspace is handled in the main
/// window.
pub proof fn lemma_route_local_when_hosted_here(windows: Seq<ExtraWindow>, ws: u64, i: int)
    requires
        is_first_host(windows, ws, i),
    ensures
        route_of(windows, Some(ws), Some(windows[i].id), Route::Local),
        forall|w: int| #![auto] 0 <= w < windows.len() && windows[w].id != windows[i].id ==> route_of(
            windows,
            Some(ws),
            Some(windows[w].id),
            Route::FocusExtra(i as usize),
        ),
{
    assert forall|f: int| is_first_host(windows, ws, f) implies f == i by {
        lemma_first_host_unique(windows, ws, f, i);
    }
}

} // verus!
