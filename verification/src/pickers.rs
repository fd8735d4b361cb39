//! The command palette's and the closed-sessions picker's own state: closing
//! them, filtering the closed sessions, and acting on the picker's keys.
use vstd::prelude::*;

use crate::closed_sessions::{navigate_selection, navigated};
use crate::debounce::{Debouncer, idle_view};
use crate::matching::{closed_session_listed, closed_session_matches, fuzzy_match, is_subsequence};
use crate::title::{lowercase, str_lowercase};

verus! {

/// The command palette's state.
pub struct PaletteState {
    pub open: bool,
    pub query: String,
    pub selected: usize,
    pub debouncer: Debouncer,
}

impl PaletteState {
    /// Closes the palette: hidden, query and selection cleared, debouncer reset.
    pub fn close_palette(&mut self)
        ensures
            !final(self).open,
            final(self).query@.len() == 0,
            final(self).selected == 0,
            final(self).debouncer@ == idle_view(old(self).debouncer@.delay),
    {
        self.open = false;
        self.query = String::new();
        self.selected = 0;
        self.debouncer.reset();
    }
}

/// The positions of the palette entries listed for `query`: those whose
/// lower-cased label holds the query's characters in order (all of them for
/// an empty query), in order.
pub open spec fn palette_listed(labels_lower: Seq<Seq<char>>, query: Seq<char>) -> Seq<usize>
    decreases labels_lower.len(),
{
    if labels_lower.len() == 0 {
        Seq::empty()
    } else {
        palette_listed(labels_lower.drop_last(), query) + (if is_subsequence(
            query,
            labels_lower.last(),
        ) {
            seq![(labels_lower.len() - 1) as usize]
        } else {
            Seq::empty()
        })
    }
}

/// The positions of the palette entries listed for `query` (trimmed and
/// lower-cased), given the entries' lower-cased labels.
pub fn filter_palette(labels_lower: &Vec<String>, query: &str) -> (r: Vec<usize>)
    ensures
        r@ == palette_listed(strings_of(labels_lower@), query@),
{
    let mut r: Vec<usize> = Vec::new();
    let mut i: usize = 0;
    assert(strings_of(labels_lower@).take(0) =~= Seq::<Seq<char>>::empty());
    while i < labels_lower.len()
        invariant
            0 <= i <= labels_lower.len(),
            r@ == palette_listed(strings_of(labels_lower@).take(i as int), query@),
        decreases labels_lower.len() - i,
    {
        let ghost ls = strings_of(labels_lower@);
        assert(ls.take(i + 1).drop_last() =~= ls.take(i as int));
        assert(ls.take(i + 1).last() == labels_lower@[i as int]@);
        if fuzzy_match(labels_lower[i].as_str(), query) {
            r.push(i);
        }
        assert(r@ =~= palette_listed(ls.take(i + 1), query@));
        i = i + 1;
    }
    assert(strings_of(labels_lower@).take(i as int) =~= strings_of(labels_lower@));
    r
}

/// The lower-cased labels as plain values.
pub open spec fn strings_of(v: Seq<String>) -> Seq<Seq<char>> {
    v.map_values(|s: String| s@)
}

/// The palette's selection after this frame's arrow keys over `count` listed
/// entries: first pulled back onto the last entry when past it, then moved up
/// or down one while that stays in the list.
pub open spec fn palette_selected(selected: usize, count: usize, up: bool, down: bool) -> usize {
    let s0: int = if selected >= count {
        if count > 0 {
            count - 1
        } else {
            0
        }
    } else {
        selected as int
    };
    let s1: int = if up && s0 > 0 {
        s0 - 1
    } else {
        s0
    };
    (if down && s1 + 1 < count {
        s1 + 1
    } else {
        s1
    }) as usize
}

/// Applies this frame's arrow keys to the palette's selection.
pub fn palette_select(selected: usize, count: usize, up: bool, down: bool) -> (r: usize)
    ensures
        r == palette_selected(selected, count, up, down),
        count > 0 ==> r < count,
{
    let mut sel = selected;
    if sel >= count {
        sel = if count > 0 {
            count - 1
        } else {
            0
        };
    }
    if up && sel > 0 {
        sel = sel - 1;
    }
    if down && sel < count && sel + 1 < count {
        sel = sel + 1;
    }
    sel
}

/// A recently closed session.
pub struct ClosedSessionRecord {
    pub id: u64,
    pub title: String,
    pub cwd: String,
    pub workspace_name: Option<String>,
    pub shell: String,
    /// Seconds since the Unix epoch.
    pub closed_at: u64,
    pub line_count: usize,
    pub cols: u16,
    pub rows: u16,
}

/// The closed-sessions picker's state.
pub struct ClosedSessionsPicker {
    pub show: bool,
    pub query: String,
    pub selected: usize,
    /// The records loaded while the picker is open.
    pub cache: Option<Vec<ClosedSessionRecord>>,
}

impl ClosedSessionsPicker {
    /// Closes the picker: hidden, query and selection cleared, records dropped.
    pub fn close_closed_sessions_picker(&mut self)
        ensures
            !final(self).show,
            final(self).query@.len() == 0,
            final(self).selected == 0,
            final(self).cache is None,
    {
        self.show = false;
        self.query = String::new();
        self.selected = 0;
        self.cache = None;
    }
}

/// Whether the record is listed for the lower-cased query.
pub open spec fn record_listed(r: ClosedSessionRecord, query_lower: Seq<char>) -> bool {
    closed_session_listed(
        query_lower,
        r.title@,
        r.cwd@,
        match r.workspace_name {
            Some(n) => Some(n@),
            None => None,
        },
        r.shell@,
    )
}

/// The positions of the records listed for the lower-cased query, in order.
pub open spec fn listed_positions(records: Seq<ClosedSessionRecord>, query_lower: Seq<char>) -> Seq<usize>
    decreases records.len(),
{
    if records.len() == 0 {
        Seq::empty()
    } else {
        listed_positions(records.drop_last(), query_lower) + (if record_listed(
            records.last(),
            query_lower,
        ) {
            seq![(records.len() - 1) as usize]
        } else {
            Seq::empty()
        })
    }
}

/// The positions of the records the picker lists for `query` (matched
/// lower-cased), in order.
pub fn filter_closed_sessions(records: &Vec<ClosedSessionRecord>, query: &str) -> (r: Vec<usize>)
    ensures
        r@ == listed_positions(records@, str_lowercase(query@)),
{
    let q = lowercase(query);
    let mut r: Vec<usize> = Vec::new();
    let mut i: usize = 0;
    assert(records@.take(0) =~= Seq::<ClosedSessionRecord>::empty());
    while i < records.len()
        invariant
            0 <= i <= records.len(),
            q@ == str_lowercase(query@),
            r@ == listed_positions(records@.take(i as int), q@),
        decreases records.len() - i,
    {
        let rec = &records[i];
        assert(records@.take(i + 1).drop_last() =~= records@.take(i as int));
        assert(records@.take(i + 1).last() == *rec);
        let ws: Option<&str> = match &rec.workspace_name {
            Some(n) => Some(n.as_str()),
            None => None,
        };
        if closed_session_matches(q.as_str(), rec.title.as_str(), rec.cwd.as_str(), ws, rec.shell.as_str()) {
            r.push(i);
        }
        assert(r@ =~= listed_positions(records@.take(i + 1), q@));
        i = i + 1;
    }
    assert(records@.take(i as int) =~= records@);
    r
}

/// The picker's selection after this frame's keys, and the record to restore
/// when Enter was pressed on a listed record.
pub open spec fn picker_outcome(
    records: Seq<ClosedSessionRecord>,
    listed: Seq<usize>,
    selected: usize,
    up: bool,
    down: bool,
    enter: bool,
) -> (usize, Option<u64>) {
    let sel = navigated(selected, listed.len() as usize, up, down);
    if listed.len() > 0 && enter && listed[sel as int] < records.len() {
        (sel, Some(records[listed[sel as int] as int].id))
    } else {
        (sel, None)
    }
}

/// Applies this frame's arrow and Enter keys to the picker over the listed
/// records `listed` (positions in `records`).
pub fn picker_keys(
    records: &Vec<ClosedSessionRecord>,
    listed: &Vec<usize>,
    selected: usize,
    up: bool,
    down: bool,
    enter: bool,
) -> (r: (usize, Option<u64>))
    ensures
        r == picker_outcome(records@, listed@, selected, up, down, enter),
{
    let sel = navigate_selection(selected, listed.len(), up, down);
    if listed.len() > 0 && enter {
        let idx = listed[sel];
        if idx < records.len() {
            return (sel, Some(records[idx].id));
        }
    }
    (sel, None)
}

/// With an empty query the picker lists every record, in order; with any
/// query it lists positions of records only, in increasing order.
pub proof fn lemma_listing(records: Seq<ClosedSessionRecord>, query_lower: Seq<char>)
    requires
        records.len() <= usize::MAX,
    ensures
        query_lower.len() == 0 ==> listed_positions(records, query_lower) == Seq::new(
            records.len(),
            |i: int| i as usize,
        ),
        forall|a: int, b: int|
            0 <= a < b < listed_positions(records, query_lower).len() ==> #[trigger] listed_positions(records, query_lower)[a]
                < #[trigger] listed_positions(records, query_lower)[b],
        forall|a: int|
            0 <= a < listed_positions(records, query_lower).len() ==> #[trigger] listed_positions(records, query_lower)[a]
                < records.len(),
    decreases records.len(),
{
    if records.len() > 0 {
        lemma_listing(records.drop_last(), query_lower);
        let p = listed_positions(records.drop_last(), query_lower);
        let l = listed_positions(records, query_lower);
        assert forall|a: int| 0 <= a < l.len() implies #[trigger] l[a] < records.len() by {
            if a < p.len() {
                assert(l[a] == p[a]);
            }
        }
        assert forall|a: int, b: int| 0 <= a < b < l.len() implies #[trigger] l[a] < #[trigger] l[b] by {
            if b < p.len() {
                assert(l[a] == p[a] && l[b] == p[b]);
            } else {
                assert(l[a] == p[a]);
                assert(p[a] < records.len() - 1);
                let tail: Seq<usize> = if record_listed(records.last(), query_lower) {
                    seq![(records.len() - 1) as usize]
                } else {
                    Seq::empty()
                };
                assert(l == p + tail);
                assert(tail.len() == 1);
                assert(l[b] == tail[0]);
            }
        }
        if query_lower.len() == 0 {
            assert(record_listed(records.last(), query_lower));
            assert(l =~= Seq::new(records.len(), |i: int| i as usize));
        }
    } else {
        if query_lower.len() == 0 {
            assert(listed_positions(records, query_lower) =~= Seq::new(records.len(), |i: int| i as usize));
        }
    }
}

} // verus!
