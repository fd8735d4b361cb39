//! Going to a workspace or a pane across windows: which window takes the
//! focus and with which pane, or whether the current window switches group.
use vstd::prelude::*;

use crate::layout::{
    ExtraWindow, Route, Workspace, lemma_route_unique, panes_in_group, route_for_group, route_of,
};

verus! {

/// The workspace a raw id names: `u64::MAX` stands for no workspace.
pub open spec fn group_of_raw(raw: u64) -> Option<u64> {
    if raw == u64::MAX {
        None
    } else {
        Some(raw)
    }
}

/// What going somewhere does.
#[derive(Clone, Copy, Debug, PartialEq, Eq, Structural)]
pub enum Navigation {
    /// Focus another window (the extra window at this position, or the main
    /// window for `None`) and show this pane there.
    Focus { window: Option<usize>, pane: u32 },
    /// Stay in this window and switch to the group.
    SwitchHere,
    /// Nothing to show.
    Nothing,
}

/// The first pane (in pane order) of `group`, given each pane's group.
pub open spec fn first_in_group(pane_groups: Seq<(u32, Option<u64>)>, group: Option<u64>) -> Option<u32> {
    let s = panes_in_group(pane_groups, group);
    if s.len() > 0 {
        Some(s[0])
    } else {
        None
    }
}

/// The first pane of `group`, given each pane's group in pane order.
pub fn first_pane_in_group(pane_groups: &Vec<(u32, Option<u64>)>, group: Option<u64>) -> (r: Option<u32>)
    ensures
        r == first_in_group(pane_groups@, group),
{
    let mut in_group: Vec<u32> = Vec::new();
    let mut i: usize = 0;
    assert(pane_groups@.take(0) =~= Seq::<(u32, Option<u64>)>::empty());
    while i < pane_groups.len()
        invariant
            0 <= i <= pane_groups.len(),
            in_group@ == panes_in_group(pane_groups@.take(i as int), group),
        decreases pane_groups.len() - i,
    {
        assert(pane_groups@.take(i + 1).drop_last() =~= pane_groups@.take(i as int));
        if pane_groups[i].1 == group {
            in_group.push(pane_groups[i].0);
        }
        assert(in_group@ =~= panes_in_group(pane_groups@.take(i + 1), group));
        i = i + 1;
    }
    assert(pane_groups@.take(i as int) =~= pane_groups@);
    if in_group.len() > 0 {
        Some(in_group[0])
    } else {
        None
    }
}

/// Where going to the workspace `raw` (`u64::MAX` for panes outside any
/// workspace) leads, seen from `current_window`: the extra window hosting it,
/// showing its active pane or else the group's first pane; the main window,
/// showing the group's first pane, when this is an extra window and no extra
/// window hosts it; else a group switch here. Nothing happens when the other
/// window would have no pane to show.
pub open spec fn workspace_navigation(
    windows: Seq<ExtraWindow>,
    pane_groups: Seq<(u32, Option<u64>)>,
    raw: u64,
    route: Route,
) -> Navigation {
    let group = group_of_raw(raw);
    match route {
        Route::FocusExtra(idx) => match (if windows[idx as int].active_pane_id is Some {
            windows[idx as int].active_pane_id
        } else {
            first_in_group(pane_groups, group)
        }) {
            Some(p) => Navigation::Focus { window: Some(idx), pane: p },
            None => Navigation::Nothing,
        },
        Route::FocusMain => match first_in_group(pane_groups, group) {
            Some(p) => Navigation::Focus { window: None, pane: p },
            None => Navigation::Nothing,
        },
        Route::Local => Navigation::SwitchHere,
    }
}

/// Decides where going to the workspace `raw` leads.
pub fn navigate_to_workspace(
    windows: &Vec<ExtraWindow>,
    pane_groups: &Vec<(u32, Option<u64>)>,
    raw: u64,
    current_window: Option<u64>,
) -> (r: Navigation)
    ensures
        forall|route: Route|
            route_of(windows@, group_of_raw(raw), current_window, route) ==> r == workspace_navigation(
                windows@,
                pane_groups@,
                raw,
                route,
            ),
{
    let group = if raw == u64::MAX {
        None
    } else {
        Some(raw)
    };
    let route = route_for_group(windows, group, current_window);
    let r = match route {
        Route::FocusExtra(idx) => {
            let pane = match windows[idx].active_pane_id {
                Some(p) => Some(p),
                None => first_pane_in_group(pane_groups, group),
            };
            match pane {
                Some(p) => Navigation::Focus { window: Some(idx), pane: p },
                None => Navigation::Nothing,
            }
        },
        Route::FocusMain => match first_pane_in_group(pane_groups, group) {
            Some(p) => Navigation::Focus { window: None, pane: p },
            None => Navigation::Nothing,
        },
        Route::Local => Navigation::SwitchHere,
    };
    proof {
        assert forall|other: Route|
            route_of(windows@, group_of_raw(raw), current_window, other) implies r == workspace_navigation(
                windows@,
                pane_groups@,
                raw,
                other,
            ) by {
            lemma_route_unique(windows@, group_of_raw(raw), current_window, route, other);
        }
    }
    r
}

/// What going to a pane does.
#[derive(Clone, Copy, Debug, PartialEq, Eq, Structural)]
pub enum PaneNavigation {
    /// Focus another window (an extra window by position, or the main window
    /// for `None`) to show the pane there.
    Focus { window: Option<usize> },
    /// Show the pane here, switching to its group first when it is not the
    /// active one.
    Activate { switch_group: bool },
}

/// Where going to a pane of `group` leads, given the route of its group.
pub open spec fn pane_navigation(group: Option<u64>, active_group: Option<u64>, route: Route) -> PaneNavigation {
    match route {
        Route::FocusExtra(idx) => PaneNavigation::Focus { window: Some(idx) },
        Route::FocusMain => PaneNavigation::Focus { window: None },
        Route::Local => PaneNavigation::Activate { switch_group: group != active_group },
    }
}

/// Decides where going to a pane of `group` leads, seen from
/// `current_window` with `active_group` active.
pub fn navigate_to_pane(
    windows: &Vec<ExtraWindow>,
    group: Option<u64>,
    current_window: Option<u64>,
    active_group: Option<u64>,
) -> (r: PaneNavigation)
    ensures
        forall|route: Route|
            route_of(windows@, group, current_window, route) ==> r == pane_navigation(group, active_group, route),
{
    let route = route_for_group(windows, group, current_window);
    let r = match route {
        Route::FocusExtra(idx) => PaneNavigation::Focus { window: Some(idx) },
        Route::FocusMain => PaneNavigation::Focus { window: None },
        Route::Local => PaneNavigation::Activate { switch_group: group != active_group },
    };
    proof {
        assert forall|other: Route| route_of(windows@, group, current_window, other) implies r
            == pane_navigation(group, active_group, other) by {
            lemma_route_unique(windows@, group, current_window, route, other);
        }
    }
    r
}

// ── Cycling through workspaces ──────────────────────────────────────────────

/// The workspaces the next/previous-workspace commands visit: those no extra
/// window hosts, in order, by id.
pub open spec fn cyclable(ws: Seq<Workspace>) -> Seq<u64>
    decreases ws.len(),
{
    if ws.len() == 0 {
        Seq::empty()
    } else {
        cyclable(ws.drop_last()) + (if ws.last().host_window_id is None {
            seq![ws.last().id]
        } else {
            Seq::empty()
        })
    }
}

/// The position of the active workspace among `ids` (its first), or 0 when
/// there is none or it is not among them.
pub open spec fn position_of(ids: Seq<u64>, active: Option<u64>) -> int {
    match active {
        Some(g) => if ids.contains(g) {
            choose|i: int| 0 <= i < ids.len() && ids[i] == g && forall|j: int| 0 <= j < i ==> ids[j] != g
        } else {
            0
        },
        None => 0,
    }
}

/// The workspace the command goes to: the next (or previous) one after the
/// active one, wrapping around; none when there is no workspace to visit.
pub open spec fn cycle_target(ids: Seq<u64>, active: Option<u64>, forward: bool) -> Option<u64> {
    if ids.len() == 0 {
        None
    } else {
        let cur = position_of(ids, active);
        Some(
            ids[if forward {
                (cur + 1) % (ids.len() as int)
            } else if cur == 0 {
                ids.len() - 1
            } else {
                cur - 1
            }],
        )
    }
}

proof fn lemma_position_of(ids: Seq<u64>, g: u64, i: int)
    requires
        0 <= i < ids.len(),
        ids[i] == g,
        forall|j: int| 0 <= j < i ==> ids[j] != g,
    ensures
        position_of(ids, Some(g)) == i,
{
    assert(ids.contains(g));
    let c = choose|c: int| 0 <= c < ids.len() && ids[c] == g && forall|j: int| 0 <= j < c ==> ids[j] != g;
    if c < i {
        assert(ids[c] != g);
    }
    if i < c {
        assert(ids[i] != g);
    }
}

/// The workspace the next-workspace (`forward`) or previous-workspace command
/// goes to.
pub fn cycle_workspace(workspaces: &Vec<Workspace>, active_group: Option<u64>, forward: bool) -> (r: Option<u64>)
    ensures
        r == cycle_target(cyclable(workspaces@), active_group, forward),
{
    let mut ids: Vec<u64> = Vec::new();
    let mut i: usize = 0;
    assert(workspaces@.take(0) =~= Seq::<Workspace>::empty());
    while i < workspaces.len()
        invariant
            0 <= i <= workspaces.len(),
            ids@ == cyclable(workspaces@.take(i as int)),
        decreases workspaces.len() - i,
    {
        assert(workspaces@.take(i + 1).drop_last() =~= workspaces@.take(i as int));
        assert(workspaces@.take(i + 1).last() == workspaces@[i as int]);
        if workspaces[i].host_window_id.is_none() {
            ids.push(workspaces[i].id);
        }
        assert(ids@ =~= cyclable(workspaces@.take(i + 1)));
        i = i + 1;
    }
    assert(workspaces@.take(i as int) =~= workspaces@);
    if ids.len() == 0 {
        return None;
    }
    let mut cur: usize = 0;
    if let Some(g) = active_group {
        let mut k: usize = 0;
        while k < ids.len()
            invariant
                0 <= k <= ids.len(),
                active_group == Some(g),
                forall|j: int| 0 <= j < k ==> ids@[j] != g,
            ensures
                k < ids.len() ==> ids@[k as int] == g,
                forall|j: int| 0 <= j < k ==> ids@[j] != g,
            decreases ids.len() - k,
        {
            if ids[k] == g {
                break;
            }
            k = k + 1;
        }
        if k < ids.len() {
            proof {
                lemma_position_of(ids@, g, k as int);
            }
            cur = k;
        } else {
            assert(!ids@.contains(g)) by {
                if ids@.contains(g) {
                    let j = choose|j: int| 0 <= j < ids@.len() && ids@[j] == g;
                    assert(ids@[j] != g);
                }
            }
        }
    }
    assert(cur == position_of(ids@, active_group));
    let n = ids.len();
    let target = if forward {
        (cur + 1) % n
    } else if cur == 0 {
        n - 1
    } else {
        cur - 1
    };
    Some(ids[target])
}

/// Going to the next workspace and then to the previous one comes back, when
/// the active workspace is among those visited and no id repeats.
pub proof fn lemma_cycle_round_trip(ids: Seq<u64>, g: u64)
    requires
        ids.no_duplicates(),
        ids.contains(g),
    ensures
        cycle_target(ids, cycle_target(ids, Some(g), true), false) == Some(g),
        cycle_target(ids, cycle_target(ids, Some(g), false), true) == Some(g),
{
    let n = ids.len() as int;
    let i = choose|i: int| 0 <= i < n && ids[i] == g;
    assert forall|j: int| 0 <= j < i implies ids[j] != g by {
        assert(ids[j] != ids[i]);
    }
    lemma_position_of(ids, g, i);
    let nx = (i + 1) % n;
    let pv = if i == 0 { n - 1 } else { i - 1 };
    if i == n - 1 {
        vstd::arithmetic::div_mod::lemma_mod_self_0(n);
    } else {
        vstd::arithmetic::div_mod::lemma_small_mod((i + 1) as nat, n as nat);
    }
    assert forall|j: int| 0 <= j < nx implies ids[j] != ids[nx] by {
        assert(j != nx);
    }
    lemma_position_of(ids, ids[nx], nx);
    assert forall|j: int| 0 <= j < pv implies ids[j] != ids[pv] by {
        assert(j != pv);
    }
    lemma_position_of(ids, ids[pv], pv);
    if i == 0 {
        vstd::arithmetic::div_mod::lemma_mod_self_0(n);
        assert((pv + 1) % n == 0);
    } else {
        vstd::arithmetic::div_mod::lemma_small_mod(i as nat, n as nat);
        assert((pv + 1) % n == i);
    }
}

/// The zoom after the zoom command: off when on, else on the active pane.
pub fn toggle_zoom(zoomed: Option<u32>, active_pane: Option<u32>) -> (r: Option<u32>)
    ensures
        r == (if zoomed is Some {
            None
        } else {
            active_pane
        }),
{
    if zoomed.is_some() {
        None
    } else {
        active_pane
    }
}

} // verus!
