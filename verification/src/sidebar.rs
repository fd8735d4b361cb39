//! The left panel's decisions: the label of each session row and whether it
//! is listed, which rows belong to another window, and the order and filter
//! of the workspace cards.
use vstd::prelude::*;

use crate::layout::{ExtraWindow, PaneContent};
use crate::matching::{contains_seq, contains_str};
use crate::tabs::{opt_string_view, ws_for_cwd};
use crate::text::{chars_of, push_str};
use crate::title::{
    effective_title, effective_title_spec, file_name_of, lowercase, opt_view, path_file_name,
    str_lowercase,
};

verus! {

// ── Session rows ─────────────────────────────────────────────────────────────

/// The label of a session row and whether it is dimmed. `terminal_title` is
/// the effective title of a terminal pane's session when the session is
/// found; `cwd_workspace_name` is the name of the workspace holding a
/// terminal not started yet's directory.
pub open spec fn row_label(
    content: PaneContent,
    terminal_title: Option<Seq<char>>,
    cwd_workspace_name: Option<Seq<char>>,
) -> (Seq<char>, bool) {
    match content {
        PaneContent::Terminal(_) => match terminal_title {
            Some(t) => (t, false),
            None => ("(missing)"@, true),
        },
        PaneContent::DeferredTerminal { cwd, saved_title } => {
            let text = if opt_string_view(saved_title) is Some && opt_string_view(saved_title)->0.len() > 0 {
                opt_string_view(saved_title)->0
            } else {
                let c = match cwd {
                    Some(c) => c@,
                    None => Seq::empty(),
                };
                effective_title_spec(Seq::empty(), c, None, None, ws_for_cwd(c, cwd_workspace_name))
            };
            (if text.len() == 0 {
                "(restored)"@
            } else {
                text
            }, true)
        },
        PaneContent::FileEditor { path, .. } => (
            match path_file_name(path@) {
                Some(n) => n,
                None => path@,
            },
            false,
        ),
        PaneContent::FileDiff { path } => (
            "\u{21c4} "@ + match path_file_name(path@) {
                Some(n) => n,
                None => path@,
            },
            false,
        ),
        PaneContent::NoteEditor { .. } => ("Notes"@, false),
        PaneContent::ConflictResolver { path } => (
            match path_file_name(path@) {
                Some(n) => "\u{26a0} "@ + n,
                None => "Conflicts"@,
            },
            false,
        ),
    }
}

/// `prefix` followed by `s`.
fn prefixed(prefix: &str, s: &str) -> (r: String)
    ensures
        r@ == prefix@ + s@,
{
    let mut r = String::new();
    push_str(&mut r, prefix);
    push_str(&mut r, s);
    assert(r@ =~= prefix@ + s@);
    r
}

/// The label of a session row and whether it is dimmed.
pub fn session_row_label(
    content: &PaneContent,
    terminal_title: Option<&str>,
    cwd_workspace_name: Option<&str>,
) -> (r: (String, bool))
    ensures
        (r.0@, r.1) == row_label(*content, opt_view(terminal_title), opt_view(cwd_workspace_name)),
{
    match content {
        PaneContent::Terminal(_) => match terminal_title {
            Some(t) => (t.to_string(), false),
            None => ("(missing)".to_string(), true),
        },
        PaneContent::DeferredTerminal { cwd, saved_title } => {
            let saved = match saved_title {
                Some(t) => if chars_of(t.as_str()).len() > 0 {
                    Some(t.clone())
                } else {
                    None
                },
                None => None,
            };
            let text = match saved {
                Some(t) => t,
                None => {
                    let c: &str = match cwd {
                        Some(c) => c.as_str(),
                        None => "",
                    };
                    proof {
                        reveal_strlit("");
                    }
                    let ws = if chars_of(c).len() == 0 {
                        None
                    } else {
                        cwd_workspace_name
                    };
                    assert(opt_view(ws) == ws_for_cwd(c@, opt_view(cwd_workspace_name)));
                    assert(c@ == (match cwd {
                        Some(c) => c@,
                        None => Seq::<char>::empty(),
                    }));
                    effective_title("", c, None, None, ws)
                },
            };
            if chars_of(text.as_str()).len() == 0 {
                ("(restored)".to_string(), true)
            } else {
                (text, true)
            }
        },
        PaneContent::FileEditor { path, .. } => match file_name_of(path.as_str()) {
            Some(n) => (n, false),
            None => (path.clone(), false),
        },
        PaneContent::FileDiff { path } => match file_name_of(path.as_str()) {
            Some(n) => (prefixed("\u{21c4} ", n.as_str()), false),
            None => (prefixed("\u{21c4} ", path.as_str()), false),
        },
        PaneContent::NoteEditor { .. } => ("Notes".to_string(), false),
        PaneContent::ConflictResolver { path } => match file_name_of(path.as_str()) {
            Some(n) => (prefixed("\u{26a0} ", n.as_str()), false),
            None => ("Conflicts".to_string(), false),
        },
    }
}

/// Whether a row passes the workspace filter: no filter, or the filter is the
/// row's workspace (`Some(None)` keeps the rows outside any workspace).
pub fn passes_workspace_filter(filter: Option<Option<u64>>, pane_workspace: Option<u64>) -> (b: bool)
    ensures
        b == (filter is None || filter == Some(pane_workspace)),
{
    match filter {
        None => true,
        Some(f) => f == pane_workspace,
    }
}

/// A row of workspace `pane_workspace` belongs to another window than
/// `current_window`: some extra window other than this one hosts the
/// workspace, or, when no extra window hosts it, this is an extra window.
pub open spec fn in_other_window_spec(windows: Seq<ExtraWindow>, pane_workspace: Option<u64>, current_window: Option<u64>) -> bool {
    match pane_workspace {
        Some(ws) => if exists|i: int| 0 <= i < windows.len() && windows[i].workspace_id == ws {
            exists|i: int|
                0 <= i < windows.len() && windows[i].workspace_id == ws && current_window != Some(
                    #[trigger] windows[i].id,
                )
        } else {
            current_window is Some
        },
        None => false,
    }
}

/// Whether a row belongs to another window.
pub fn in_other_window(windows: &Vec<ExtraWindow>, pane_workspace: Option<u64>, current_window: Option<u64>) -> (b: bool)
    ensures
        b == in_other_window_spec(windows@, pane_workspace, current_window),
{
    let ws = match pane_workspace {
        Some(w) => w,
        None => {
            return false;
        },
    };
    let mut owned = false;
    let mut elsewhere = false;
    let mut i: usize = 0;
    while i < windows.len()
        invariant
            0 <= i <= windows.len(),
            pane_workspace == Some(ws),
            owned == exists|j: int| 0 <= j < i && windows@[j].workspace_id == ws,
            elsewhere == exists|j: int|
                0 <= j < i && windows@[j].workspace_id == ws && current_window != Some(
                    #[trigger] windows@[j].id,
                ),
        decreases windows.len() - i,
    {
        if windows[i].workspace_id == ws {
            owned = true;
            if current_window != Some(windows[i].id) {
                elsewhere = true;
            }
        }
        i = i + 1;
    }
    if owned {
        elsewhere
    } else {
        current_window.is_some()
    }
}

/// The hover text of a row: its label, marked when it switches window.
pub fn row_hover_text(label: &str, other_window: bool) -> (r: String)
    ensures
        r@ == (if other_window {
            label@ + " (switch window)"@
        } else {
            label@
        }),
{
    if other_window {
        prefixed(label, " (switch window)")
    } else {
        label.to_string()
    }
}

/// What a click on a row does: its close button quits the pane; elsewhere
/// the row selects the pane.
#[derive(Clone, Copy, Debug, PartialEq, Eq, Structural)]
pub enum RowClick {
    Quit,
    Select,
    Nothing,
}

/// The effect of this frame's clicks on a row.
pub fn row_click(close_clicked: bool, row_clicked: bool) -> (r: RowClick)
    ensures
        r == (if close_clicked {
            RowClick::Quit
        } else if row_clicked {
            RowClick::Select
        } else {
            RowClick::Nothing
        }),
{
    if close_clicked {
        RowClick::Quit
    } else if row_clicked {
        RowClick::Select
    } else {
        RowClick::Nothing
    }
}

// ── Workspace cards ──────────────────────────────────────────────────────────

/// `a` comes before `b` in code-point order (the order of `str`, whose
/// byte order UTF-8 keeps).
pub open spec fn seq_lt(a: Seq<char>, b: Seq<char>) -> bool
    decreases a.len(),
{
    if b.len() == 0 {
        false
    } else if a.len() == 0 {
        true
    } else if a[0] != b[0] {
        a[0] < b[0]
    } else {
        seq_lt(a.drop_first(), b.drop_first())
    }
}

proof fn lemma_seq_lt_irreflexive(a: Seq<char>)
    ensures
        !seq_lt(a, a),
    decreases a.len(),
{
    if a.len() > 0 {
        lemma_seq_lt_irreflexive(a.drop_first());
    }
}

proof fn lemma_seq_lt_transitive(a: Seq<char>, b: Seq<char>, c: Seq<char>)
    requires
        seq_lt(a, b),
        seq_lt(b, c),
    ensures
        seq_lt(a, c),
    decreases a.len(),
{
    if a.len() > 0 && b.len() > 0 && c.len() > 0 && a[0] == b[0] && b[0] == c[0] {
        lemma_seq_lt_transitive(a.drop_first(), b.drop_first(), c.drop_first());
    }
}

proof fn lemma_seq_lt_total(a: Seq<char>, b: Seq<char>)
    requires
        a != b,
    ensures
        seq_lt(a, b) || seq_lt(b, a),
    decreases a.len(),
{
    if a.len() > 0 && b.len() > 0 {
        if a[0] == b[0] {
            if a.drop_first() == b.drop_first() {
                assert(a =~= seq![a[0]] + a.drop_first());
                assert(b =~= seq![b[0]] + b.drop_first());
            }
            lemma_seq_lt_total(a.drop_first(), b.drop_first());
        }
    } else if a.len() == 0 && b.len() == 0 {
        assert(a =~= b);
    }
}

/// Whether `a` comes before `b` in code-point order.
fn chars_lt(a: &Vec<char>, b: &Vec<char>) -> (r: bool)
    ensures
        r == seq_lt(a@, b@),
{
    let mut i: usize = 0;
    assert(a@.skip(0) =~= a@);
    assert(b@.skip(0) =~= b@);
    loop
        invariant
            0 <= i <= a.len(),
            i <= b.len(),
            seq_lt(a@, b@) == seq_lt(a@.skip(i as int), b@.skip(i as int)),
        decreases a.len() - i,
    {
        if i == b.len() {
            return false;
        }
        if i == a.len() {
            return true;
        }
        assert(a@.skip(i as int)[0] == a@[i as int]);
        assert(b@.skip(i as int)[0] == b@[i as int]);
        if a[i] != b[i] {
            return a[i] < b[i];
        }
        assert(a@.skip(i as int).drop_first() =~= a@.skip(i + 1));
        assert(b@.skip(i as int).drop_first() =~= b@.skip(i + 1));
        i = i + 1;
    }
}

/// Card `i` comes before card `j`: workspaces with open panes first, then by
/// lower-cased name, then (equal keys) in the order given.
pub open spec fn card_before(active: Seq<bool>, lows: Seq<Seq<char>>, i: int, j: int) -> bool {
    (active[i] && !active[j]) || (active[i] == active[j] && (seq_lt(lows[i], lows[j]) || (lows[i]
        == lows[j] && i < j)))
}

proof fn lemma_card_before_order(active: Seq<bool>, lows: Seq<Seq<char>>, i: int, j: int, k: int)
    ensures
        !card_before(active, lows, i, i),
        card_before(active, lows, i, j) && card_before(active, lows, j, k) ==> card_before(active, lows, i, k),
        i != j ==> card_before(active, lows, i, j) || card_before(active, lows, j, i),
{
    lemma_seq_lt_irreflexive(lows[i]);
    if card_before(active, lows, i, j) && card_before(active, lows, j, k) {
        if active[i] == active[j] && active[j] == active[k] {
            if seq_lt(lows[i], lows[j]) && seq_lt(lows[j], lows[k]) {
                lemma_seq_lt_transitive(lows[i], lows[j], lows[k]);
            }
        }
    }
    if i != j && active[i] == active[j] && lows[i] != lows[j] {
        lemma_seq_lt_total(lows[i], lows[j]);
    }
}

/// The workspaces' names lower-cased.
pub open spec fn lowered(names: Seq<String>) -> Seq<Seq<char>> {
    names.map_values(|s: String| str_lowercase(s@))
}

/// The order of the workspace cards: positions of the workspaces, those
/// with open panes first, each group by lower-cased name, equal ones in the
/// order given.
pub fn workspace_order(names: &Vec<String>, active: &Vec<bool>) -> (r: Vec<usize>)
    requires
        names.len() == active.len(),
    ensures
        r@.len() == names@.len(),
        forall|p: int| 0 <= p < r@.len() ==> #[trigger] r@[p] < names@.len(),
        forall|p: int, q: int|
            0 <= p < q < r@.len() ==> card_before(active@, lowered(names@), #[trigger] r@[p] as int, #[trigger] r@[q] as int),
{
    let ghost lows = lowered(names@);
    let mut keys: Vec<Vec<char>> = Vec::new();
    let mut i: usize = 0;
    while i < names.len()
        invariant
            0 <= i <= names.len(),
            keys@.len() == i,
            lows == lowered(names@),
            forall|j: int| 0 <= j < i ==> #[trigger] keys@[j]@ == lows[j],
        decreases names.len() - i,
    {
        let l = lowercase(names[i].as_str());
        keys.push(chars_of(l.as_str()));
        i = i + 1;
    }
    let mut r: Vec<usize> = Vec::new();
    let mut k: usize = 0;
    while k < names.len()
        invariant
            0 <= k <= names.len(),
            names.len() == active.len(),
            keys@.len() == names.len(),
            lows == lowered(names@),
            forall|j: int| 0 <= j < names.len() ==> #[trigger] keys@[j]@ == lows[j],
            r@.len() == k,
            forall|p: int| 0 <= p < r@.len() ==> #[trigger] r@[p] < k,
            forall|p: int, q: int|
                0 <= p < q < r@.len() ==> card_before(active@, lows, #[trigger] r@[p] as int, #[trigger] r@[q] as int),
        decreases names.len() - k,
    {
        let mut pos: usize = r.len();
        while pos > 0
            invariant
                0 <= pos <= r@.len(),
                r@.len() == k,
                k < names.len(),
                names.len() == active.len(),
                keys@.len() == names.len(),
                forall|j: int| 0 <= j < names.len() ==> #[trigger] keys@[j]@ == lows[j],
                forall|p: int| 0 <= p < r@.len() ==> #[trigger] r@[p] < k,
                forall|q: int| pos <= q < r@.len() ==> card_before(active@, lows, k as int, #[trigger] r@[q] as int),
            ensures
                0 <= pos <= r@.len(),
                forall|q: int| pos <= q < r@.len() ==> card_before(active@, lows, k as int, #[trigger] r@[q] as int),
                pos > 0 ==> !card_before(active@, lows, k as int, r@[pos - 1] as int),
            decreases pos,
        {
            let x = r[pos - 1];
            let ak = active[k];
            let ax = active[x];
            let goes_before = (ak && !ax) || (ak == ax && (chars_lt(&keys[k], &keys[x]) || (
            crate::text::chars_eq(&keys[k], &keys[x]) && k < x)));
            if !goes_before {
                break;
            }
            pos = pos - 1;
        }
        proof {
            if pos > 0 {
                let x = r@[pos - 1] as int;
                lemma_card_before_order(active@, lows, x, k as int, 0);
                assert forall|q: int| 0 <= q < pos implies card_before(active@, lows, #[trigger] r@[q] as int, k as int) by {
                    if q < pos - 1 {
                        lemma_card_before_order(active@, lows, r@[q] as int, x, k as int);
                    }
                }
            }
        }
        let ghost r0 = r@;
        r.insert(pos, k);
        proof {
            assert forall|p: int, q: int| 0 <= p < q < r@.len() implies card_before(
                active@,
                lows,
                #[trigger] r@[p] as int,
                #[trigger] r@[q] as int,
            ) by {
                if p < pos && q < pos {
                    assert(r@[p] == r0[p] && r@[q] == r0[q]);
                } else if p < pos && q == pos {
                    assert(r@[p] == r0[p] && r@[q] == k);
                } else if p < pos {
                    assert(r@[p] == r0[p] && r@[q] == r0[q - 1]);
                    lemma_card_before_order(active@, lows, r0[p] as int, k as int, r0[q - 1] as int);
                } else if p == pos {
                    assert(r@[p] == k && r@[q] == r0[q - 1]);
                } else {
                    assert(r@[p] == r0[p - 1] && r@[q] == r0[q - 1]);
                }
            }
            assert forall|p: int| 0 <= p < r@.len() implies #[trigger] r@[p] < k + 1 by {
                if p < pos {
                    assert(r@[p] == r0[p]);
                } else if p > pos {
                    assert(r@[p] == r0[p - 1]);
                }
            }
        }
        k = k + 1;
    }
    r
}

/// Whether a workspace card is shown for the lower-cased filter: always for
/// an empty filter, else when its lower-cased name holds the filter.
pub fn workspace_visible(name: &str, filter_lower: &str) -> (b: bool)
    ensures
        b == (filter_lower@.len() == 0 || contains_seq(str_lowercase(name@), filter_lower@)),
{
    if chars_of(filter_lower).len() == 0 {
        return true;
    }
    let l = lowercase(name);
    contains_str(l.as_str(), filter_lower)
}

/// Whether the "Other" group (panes outside any workspace) is shown: when
/// such panes exist and no filter is typed.
pub fn shows_other_group(has_other_panes: bool, filter_lower: &str) -> (b: bool)
    ensures
        b == (has_other_panes && filter_lower@.len() == 0),
{
    has_other_panes && chars_of(filter_lower).len() == 0
}

} // verus!
