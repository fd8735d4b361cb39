//! The quick switcher's decisions: the order of its workspace columns, the
//! letter of each entry, and what its keys do.
use vstd::prelude::*;

verus! {

/// Column `i` comes before column `j`: the most recently activated
/// workspace first, equal ones in the order given.
pub open spec fn column_before(last: Seq<u64>, i: int, j: int) -> bool {
    last[i] > last[j] || (last[i] == last[j] && i < j)
}

/// The order of the switcher's columns: positions of the groups, the most
/// recently activated first, equal ones in the order given.
pub fn column_order(last_activated: &Vec<u64>) -> (r: Vec<usize>)
    ensures
        r@.len() == last_activated@.len(),
        forall|p: int| 0 <= p < r@.len() ==> #[trigger] r@[p] < last_activated@.len(),
        forall|p: int, q: int|
            0 <= p < q < r@.len() ==> column_before(last_activated@, #[trigger] r@[p] as int, #[trigger] r@[q] as int),
{
    let ghost last = last_activated@;
    let mut r: Vec<usize> = Vec::new();
    let mut k: usize = 0;
    while k < last_activated.len()
        invariant
            0 <= k <= last_activated.len(),
            last == last_activated@,
            r@.len() == k,
            forall|p: int| 0 <= p < r@.len() ==> #[trigger] r@[p] < k,
            forall|p: int, q: int|
                0 <= p < q < r@.len() ==> column_before(last, #[trigger] r@[p] as int, #[trigger] r@[q] as int),
        decreases last_activated.len() - k,
    {
        let mut pos: usize = r.len();
        while pos > 0
            invariant
                0 <= pos <= r@.len(),
                r@.len() == k,
                k < last_activated.len(),
                last == last_activated@,
                forall|p: int| 0 <= p < r@.len() ==> #[trigger] r@[p] < k,
                forall|q: int| pos <= q < r@.len() ==> column_before(last, k as int, #[trigger] r@[q] as int),
            ensures
                0 <= pos <= r@.len(),
                forall|q: int| pos <= q < r@.len() ==> column_before(last, k as int, #[trigger] r@[q] as int),
                pos > 0 ==> !column_before(last, k as int, r@[pos - 1] as int),
            decreases pos,
        {
            let x = r[pos - 1];
            let goes_before = last_activated[k] > last_activated[x] || (last_activated[k]
                == last_activated[x] && k < x);
            if !goes_before {
                break;
            }
            pos = pos - 1;
        }
        let ghost r0 = r@;
        r.insert(pos, k);
        proof {
            assert forall|p: int, q: int| 0 <= p < q < r@.len() implies column_before(
                last,
                #[trigger] r@[p] as int,
                #[trigger] r@[q] as int,
            ) by {
                if p < pos && q < pos {
                    assert(r@[p] == r0[p] && r@[q] == r0[q]);
                } else if p < pos && q == pos {
                    assert(r@[p] == r0[p] && r@[q] == k);
                    let x = r0[pos - 1];
                    if p < pos - 1 {
                        assert(column_before(last, r0[p] as int, x as int));
                    }
                } else if p < pos {
                    assert(r@[p] == r0[p] && r@[q] == r0[q - 1]);
                    let x = r0[pos - 1];
                    if p < pos - 1 {
                        assert(column_before(last, r0[p] as int, x as int));
                    }
                } else if p == pos {
                    assert(r@[p] == k && r@[q] == r0[q - 1]);
                } else {
                    assert(r@[p] == r0[p - 1] && r@[q] == r0[q - 1]);
                }
            }
            assert forall|p: int| 0 <= p < r@.len() implies #[trigger] r@[p] < k + 1 by {
                if p < pos {
                    assert(r@[p] == r0[p]);
                } else if p > pos {
                    assert(r@[p] == r0[p - 1]);
                }
            }
        }
        k = k + 1;
    }
    r
}

/// The letter key of the entry at `index` in a column: `a` to `z`; later
/// entries have none (and are not listed).
pub fn entry_letter(index: usize) -> (r: Option<char>)
    ensures
        index < 26 ==> (r matches Some(c) && c as int == 'a' as int + index),
        index >= 26 ==> r is None,
{
    if index >= 26 {
        return None;
    }
    let letters = ['a', 'b', 'c', 'd', 'e', 'f', 'g', 'h', 'i', 'j', 'k', 'l', 'm', 'n', 'o', 'p', 'q', 'r',
        's', 't', 'u', 'v', 'w', 'x', 'y', 'z'];
    let c = letters[index];
    assert(letters@ =~= seq!['a', 'b', 'c', 'd', 'e', 'f', 'g', 'h', 'i', 'j', 'k', 'l', 'm', 'n', 'o', 'p', 'q', 'r',
        's', 't', 'u', 'v', 'w', 'x', 'y', 'z']);
    Some(c)
}

/// What Escape does in the switcher: clears a typed search, else closes.
pub fn switcher_escape(search_active: bool, query_empty: bool, esc: bool) -> (r: (bool, bool))
    ensures
        r.0 == (esc && search_active && !query_empty),
        r.1 == (esc && !(search_active && !query_empty)),
{
    if esc {
        if search_active && !query_empty {
            (true, false)
        } else {
            (false, true)
        }
    } else {
        (false, false)
    }
}

/// The switcher after this frame's keys, outside the search field: digits
/// select a column, letters pick an entry of the selected column, `/` starts
/// a search, Enter picks the first entry shown.
pub struct SwitcherStep {
    pub search_active: bool,
    pub selected_column: Option<usize>,
    /// The column and entry picked, if any.
    pub pick: Option<(usize, usize)>,
}

/// The first column with an entry.
pub open spec fn first_nonempty(sizes: Seq<usize>) -> Option<int>
    decreases sizes.len(),
{
    if sizes.len() == 0 {
        None
    } else if sizes[0] > 0 {
        Some(0int)
    } else {
        match first_nonempty(sizes.drop_first()) {
            Some(c) => Some(c + 1),
            None => None,
        }
    }
}

/// `o` moved `by` positions further.
pub open spec fn shift(o: Option<int>, by: int) -> Option<int> {
    match o {
        Some(c) => Some(c + by),
        None => None,
    }
}

/// The first column with an entry, if any.
fn first_entry_column(sizes: &Vec<usize>) -> (r: Option<usize>)
    ensures
        match r {
            Some(c) => first_nonempty(sizes@) == Some(c as int),
            None => first_nonempty(sizes@) is None,
        },
{
    let mut c: usize = 0;
    assert(sizes@.skip(0) =~= sizes@);
    while c < sizes.len()
        invariant
            0 <= c <= sizes.len(),
            first_nonempty(sizes@) == shift(first_nonempty(sizes@.skip(c as int)), c as int),
        decreases sizes.len() - c,
    {
        assert(sizes@.skip(c as int).drop_first() =~= sizes@.skip(c + 1));
        assert(sizes@.skip(c as int)[0] == sizes@[c as int]);
        if sizes[c] > 0 {
            return Some(c);
        }
        c = c + 1;
    }
    assert(sizes@.skip(c as int).len() == 0);
    None
}

/// The switcher's keys. `number` is the digit key pressed (0 for `1`),
/// `letter` the letter key (0 for `a`); they count only outside a search,
/// a letter only when a column was selected before. `column_sizes` gives the
/// number of entries of each column, in display order.
pub fn switcher_keys(
    search_active: bool,
    selected_column: Option<usize>,
    number: Option<usize>,
    letter: Option<usize>,
    slash: bool,
    enter: bool,
    column_sizes: &Vec<usize>,
) -> (r: SwitcherStep)
    ensures
        ({
            let number_counts = !search_active && number is Some;
            let letter_counts = !search_active && selected_column is Some && letter is Some;
            let slash_counts = !search_active && slash;
            let sel1 = if slash_counts {
                None
            } else {
                selected_column
            };
            let sel2 = if number_counts && number->0 < column_sizes@.len() {
                Some(number->0)
            } else {
                sel1
            };
            let letter_pick = if letter_counts && sel2 is Some && sel2->0 < column_sizes@.len()
                && letter->0 < column_sizes@[sel2->0 as int] {
                Some((sel2->0, letter->0))
            } else {
                None
            };
            let first = match first_nonempty(column_sizes@) {
                Some(c) => Some((c as usize, 0usize)),
                None => None,
            };
            &&& r.search_active == (search_active || slash_counts)
            &&& r.selected_column == sel2
            &&& r.pick == (if enter && first is Some {
                first
            } else {
                letter_pick
            })
        }),
{
    let number_counts = !search_active && number.is_some();
    let letter_counts = !search_active && selected_column.is_some() && letter.is_some();
    let slash_counts = !search_active && slash;
    let mut active = search_active;
    let mut sel = selected_column;
    if slash_counts {
        active = true;
        sel = None;
    }
    if number_counts {
        let n = number.unwrap();
        if n < column_sizes.len() {
            sel = Some(n);
        }
    }
    let mut pick: Option<(usize, usize)> = None;
    if letter_counts {
        if let Some(c) = sel {
            let l = letter.unwrap();
            if c < column_sizes.len() && l < column_sizes[c] {
                pick = Some((c, l));
            }
        }
    }
    if enter {
        if let Some(c) = first_entry_column(column_sizes) {
            pick = Some((c, 0));
        }
    }
    SwitcherStep { search_active: active, selected_column: sel, pick }
}

} // verus!
