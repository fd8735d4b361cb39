//! The merge-conflict resolver's decisions: which lines a resolved conflict
//! keeps, how lines are numbered, the texts of its bars, and which click wins.
use vstd::prelude::*;

use crate::closed_sessions::{decimal, decimal_string};
use crate::text::push_str;

verus! {

/// How a conflict was resolved.
#[derive(Clone, Copy, Debug, PartialEq, Eq, Structural)]
pub enum Resolution {
    Ours,
    Theirs,
    Both,
}

/// A block of a file with conflicts: plain lines, or a conflict between our
/// lines and theirs.
pub enum ConflictBlock {
    Context { lines: Vec<String> },
    Conflict {
        index: usize,
        ours_lines: Vec<String>,
        theirs_lines: Vec<String>,
        ours_label: String,
        theirs_label: String,
        resolved: Option<Resolution>,
    },
}

/// What the user asked the resolver to do.
#[derive(Clone, Copy, Debug, PartialEq, Eq, Structural)]
pub enum ConflictAction {
    Single { conflict_index: usize, resolution: Resolution },
    AllOurs,
    AllTheirs,
}

pub open spec fn lines_view(v: Seq<String>) -> Seq<Seq<char>> {
    v.map_values(|s: String| s@)
}

/// The lines a resolution keeps: ours, theirs, or ours then theirs.
pub open spec fn kept_lines(ours: Seq<Seq<char>>, theirs: Seq<Seq<char>>, r: Resolution) -> Seq<Seq<char>> {
    match r {
        Resolution::Ours => ours,
        Resolution::Theirs => theirs,
        Resolution::Both => ours + theirs,
    }
}

/// The label shown over a resolved conflict.
pub open spec fn resolution_text(r: Resolution) -> Seq<char> {
    match r {
        Resolution::Ours => "Resolved: Ours"@,
        Resolution::Theirs => "Resolved: Theirs"@,
        Resolution::Both => "Resolved: Both"@,
    }
}

/// The label shown over a resolved conflict.
pub fn resolution_label(r: Resolution) -> (s: String)
    ensures
        s@ == resolution_text(r),
{
    match r {
        Resolution::Ours => "Resolved: Ours".to_string(),
        Resolution::Theirs => "Resolved: Theirs".to_string(),
        Resolution::Both => "Resolved: Both".to_string(),
    }
}

fn append_lines(out: &mut Vec<String>, lines: &Vec<String>)
    ensures
        lines_view(final(out)@) == lines_view(old(out)@) + lines_view(lines@),
{
    let ghost start = lines_view(out@);
    let mut i: usize = 0;
    while i < lines.len()
        invariant
            0 <= i <= lines.len(),
            lines_view(out@) == start + lines_view(lines@).take(i as int),
            start == lines_view(old(out)@),
        decreases lines.len() - i,
    {
        let ghost before = out@;
        out.push(lines[i].clone());
        assert(lines_view(out@) =~= lines_view(before).push(lines@[i as int]@));
        assert(lines_view(lines@).take(i + 1) =~= lines_view(lines@).take(i as int).push(lines@[i as int]@));
        i = i + 1;
    }
    assert(lines_view(lines@).take(lines.len() as int) =~= lines_view(lines@));
}

/// What each resolution keeps: Ours exactly our lines and Theirs exactly
/// theirs, each in its order; Both our lines, in order, followed by theirs, in
/// order, and nothing else.
pub proof fn lemma_kept_lines_keep_order(ours: Seq<Seq<char>>, theirs: Seq<Seq<char>>)
    ensures
        kept_lines(ours, theirs, Resolution::Ours).len() == ours.len(),
        forall|i: int|
            0 <= i < ours.len() ==> #[trigger] kept_lines(ours, theirs, Resolution::Ours)[i] == ours[i],
        kept_lines(ours, theirs, Resolution::Theirs).len() == theirs.len(),
        forall|i: int|
            0 <= i < theirs.len() ==> #[trigger] kept_lines(ours, theirs, Resolution::Theirs)[i]
                == theirs[i],
        kept_lines(ours, theirs, Resolution::Both).len() == ours.len() + theirs.len(),
        forall|i: int|
            0 <= i < ours.len() ==> #[trigger] kept_lines(ours, theirs, Resolution::Both)[i] == ours[i],
        forall|j: int|
            0 <= j < theirs.len() ==> #[trigger] kept_lines(ours, theirs, Resolution::Both)[ours.len()
                + j] == theirs[j],
{
}

/// The lines a resolved conflict keeps, in order.
pub fn resolved_lines(ours: &Vec<String>, theirs: &Vec<String>, r: Resolution) -> (out: Vec<String>)
    ensures
        lines_view(out@) == kept_lines(lines_view(ours@), lines_view(theirs@), r),
        r == Resolution::Ours ==> lines_view(out@) == lines_view(ours@),
        r == Resolution::Theirs ==> lines_view(out@) == lines_view(theirs@),
        r == Resolution::Both ==> lines_view(out@) == lines_view(ours@) + lines_view(theirs@),
{
    let mut out: Vec<String> = Vec::new();
    assert(lines_view(out@) =~= Seq::<Seq<char>>::empty());
    match r {
        Resolution::Ours => append_lines(&mut out, ours),
        Resolution::Theirs => append_lines(&mut out, theirs),
        Resolution::Both => {
            append_lines(&mut out, ours);
            append_lines(&mut out, theirs);
        },
    }
    proof {
        assert(Seq::<Seq<char>>::empty() + lines_view(ours@) =~= lines_view(ours@));
        assert(Seq::<Seq<char>>::empty() + lines_view(theirs@) =~= lines_view(theirs@));
    }
    out
}

/// In the side-by-side view of a resolved conflict: how many of our lines and
/// of theirs the resolution keeps (the kept side is drawn in full colour, the
/// other dimmed).
pub fn kept_counts(r: Resolution, ours_len: usize, theirs_len: usize) -> (c: (usize, usize))
    ensures
        c.0 == (if r == Resolution::Theirs { 0 } else { ours_len }),
        c.1 == (if r == Resolution::Ours { 0 } else { theirs_len }),
{
    let ours = match r {
        Resolution::Ours | Resolution::Both => ours_len,
        Resolution::Theirs => 0,
    };
    let theirs = match r {
        Resolution::Theirs | Resolution::Both => theirs_len,
        Resolution::Ours => 0,
    };
    (ours, theirs)
}

/// The rows of the side-by-side view of a conflict: as many as the longer side.
pub fn side_by_side_rows(ours_len: usize, theirs_len: usize) -> (n: usize)
    ensures
        n == (if ours_len >= theirs_len { ours_len } else { theirs_len }),
{
    if ours_len >= theirs_len {
        ours_len
    } else {
        theirs_len
    }
}

/// The lines a block puts in the resolved file: its plain lines, a resolved
/// conflict's kept lines, none for an open conflict.
pub open spec fn produced(b: ConflictBlock) -> nat {
    match b {
        ConflictBlock::Context { lines } => lines@.len(),
        ConflictBlock::Conflict { ours_lines, theirs_lines, resolved, .. } => match resolved {
            Some(r) => kept_lines(lines_view(ours_lines@), lines_view(theirs_lines@), r).len(),
            None => 0,
        },
    }
}

/// The lines the blocks put in the resolved file.
pub open spec fn total_produced(blocks: Seq<ConflictBlock>) -> nat
    decreases blocks.len(),
{
    if blocks.len() == 0 {
        0
    } else {
        total_produced(blocks.drop_last()) + produced(blocks.last())
    }
}

proof fn lemma_total_produced_prefix(blocks: Seq<ConflictBlock>, i: int)
    requires
        0 <= i <= blocks.len(),
    ensures
        total_produced(blocks.take(i)) <= total_produced(blocks),
    decreases blocks.len() - i,
{
    if i < blocks.len() {
        lemma_total_produced_prefix(blocks, i + 1);
        assert(blocks.take(i + 1).drop_last() =~= blocks.take(i));
    } else {
        assert(blocks.take(i) =~= blocks);
    }
}

/// The line number of the first line of each block: lines are numbered from
/// 1 through the resolved file, so an open conflict takes no number.
pub fn block_start_lines(blocks: &Vec<ConflictBlock>) -> (starts: Vec<usize>)
    requires
        1 + total_produced(blocks@) <= usize::MAX,
    ensures
        starts@.len() == blocks@.len(),
        forall|i: int| 0 <= i < blocks@.len() ==> starts@[i] == 1 + total_produced(#[trigger] blocks@.take(i)),
{
    let mut starts: Vec<usize> = Vec::new();
    let mut line: usize = 1;
    let mut i: usize = 0;
    assert(blocks@.take(0) =~= Seq::<ConflictBlock>::empty());
    while i < blocks.len()
        invariant
            0 <= i <= blocks.len(),
            1 + total_produced(blocks@) <= usize::MAX,
            starts@.len() == i,
            line == 1 + total_produced(blocks@.take(i as int)),
            forall|j: int| 0 <= j < i ==> starts@[j] == 1 + total_produced(#[trigger] blocks@.take(j)),
        decreases blocks.len() - i,
    {
        starts.push(line);
        proof {
            assert(blocks@.take(i + 1).drop_last() =~= blocks@.take(i as int));
            assert(blocks@.take(i + 1).last() == blocks@[i as int]);
            lemma_total_produced_prefix(blocks@, i + 1);
        }
        let n: usize = match &blocks[i] {
            ConflictBlock::Context { lines } => lines.len(),
            ConflictBlock::Conflict { ours_lines, theirs_lines, resolved, .. } => match resolved {
                Some(Resolution::Ours) => ours_lines.len(),
                Some(Resolution::Theirs) => theirs_lines.len(),
                Some(Resolution::Both) => ours_lines.len() + theirs_lines.len(),
                None => 0,
            },
        };
        line = line + n;
        i = i + 1;
    }
    starts
}

/// `CONFLICT k/n` for the conflict at position `index` (counted from 0).
pub fn conflict_header(index: usize, total: usize) -> (s: String)
    requires
        index < usize::MAX,
    ensures
        s@ == "CONFLICT "@ + decimal((index + 1) as nat) + "/"@ + decimal(total as nat),
{
    let mut s = "CONFLICT ".to_string();
    let k = decimal_string((index + 1) as u64);
    push_str(&mut s, k.as_str());
    push_str(&mut s, "/");
    let n = decimal_string(total as u64);
    push_str(&mut s, n.as_str());
    s
}

/// `r/n resolved`.
pub fn progress_text(resolved: usize, total: usize) -> (s: String)
    ensures
        s@ == decimal(resolved as nat) + "/"@ + decimal(total as nat) + " resolved"@,
{
    let mut s = decimal_string(resolved as u64);
    push_str(&mut s, "/");
    let n = decimal_string(total as u64);
    push_str(&mut s, n.as_str());
    push_str(&mut s, " resolved");
    s
}

/// The toolbar's action: "All Theirs" and "All Ours" are offered while some
/// conflict is open, "All Ours" winning when both were clicked.
pub fn toolbar_action(resolved: usize, total: usize, all_theirs: bool, all_ours: bool) -> (r: Option<ConflictAction>)
    ensures
        r == (if resolved < total && all_ours {
            Some(ConflictAction::AllOurs)
        } else if resolved < total && all_theirs {
            Some(ConflictAction::AllTheirs)
        } else {
            None
        }),
{
    let mut action = None;
    if resolved < total {
        if all_theirs {
            action = Some(ConflictAction::AllTheirs);
        }
        if all_ours {
            action = Some(ConflictAction::AllOurs);
        }
    }
    action
}

/// An open conflict's action: its buttons are Both, Theirs and Ours, a later
/// one winning when several were clicked.
pub fn block_action(index: usize, both: bool, theirs: bool, ours: bool) -> (r: Option<ConflictAction>)
    ensures
        r == (if ours {
            Some(ConflictAction::Single { conflict_index: index, resolution: Resolution::Ours })
        } else if theirs {
            Some(ConflictAction::Single { conflict_index: index, resolution: Resolution::Theirs })
        } else if both {
            Some(ConflictAction::Single { conflict_index: index, resolution: Resolution::Both })
        } else {
            None
        }),
{
    let mut action = None;
    if both {
        action = Some(ConflictAction::Single { conflict_index: index, resolution: Resolution::Both });
    }
    if theirs {
        action = Some(ConflictAction::Single { conflict_index: index, resolution: Resolution::Theirs });
    }
    if ours {
        action = Some(ConflictAction::Single { conflict_index: index, resolution: Resolution::Ours });
    }
    action
}

/// The first action present, if any.
pub open spec fn first_some(actions: Seq<Option<ConflictAction>>) -> Option<ConflictAction>
    decreases actions.len(),
{
    if actions.len() == 0 {
        None
    } else if actions[0] is Some {
        actions[0]
    } else {
        first_some(actions.drop_first())
    }
}

/// The frame's action: the toolbar's, else the first open conflict's.
pub fn frame_action(toolbar: Option<ConflictAction>, blocks: &Vec<Option<ConflictAction>>) -> (r: Option<ConflictAction>)
    ensures
        r == first_some(seq![toolbar] + blocks@),
{
    let ghost all = seq![toolbar] + blocks@;
    assert(all.drop_first() =~= blocks@);
    if toolbar.is_some() {
        return toolbar;
    }
    let mut i: usize = 0;
    assert(blocks@.skip(0) =~= blocks@);
    assert(all[0] == toolbar);
    assert(first_some(all) == first_some(blocks@));
    while i < blocks.len()
        invariant
            0 <= i <= blocks.len(),
            first_some(seq![toolbar] + blocks@) == first_some(blocks@),
            first_some(blocks@) == first_some(blocks@.skip(i as int)),
        decreases blocks.len() - i,
    {
        assert(blocks@.skip(i as int).drop_first() =~= blocks@.skip(i + 1));
        assert(blocks@.skip(i as int)[0] == blocks@[i as int]);
        if blocks[i].is_some() {
            return blocks[i];
        }
        i = i + 1;
    }
    None
}

/// The view the mode buttons ask for: the clicked mode other than the
/// current one (side by side winning when both were clicked), if any.
pub fn view_toggle(side_by_side: bool, inline_clicked: bool, sbs_clicked: bool) -> (r: Option<bool>)
    ensures
        r == (if sbs_clicked && !side_by_side {
            Some(true)
        } else if inline_clicked && side_by_side {
            Some(false)
        } else {
            None
        }),
{
    let mut toggle = None;
    if inline_clicked && side_by_side {
        toggle = Some(false);
    }
    if sbs_clicked && !side_by_side {
        toggle = Some(true);
    }
    toggle
}

/// Both views of a resolved conflict advance the line numbers alike: the
/// side-by-side view's kept counts add up to the lines the inline view shows.
pub proof fn lemma_views_number_alike(ours: Seq<Seq<char>>, theirs: Seq<Seq<char>>, r: Resolution)
    ensures
        kept_lines(ours, theirs, r).len() == (if r == Resolution::Theirs { 0 } else { ours.len() })
            + (if r == Resolution::Ours { 0 } else { theirs.len() }),
{
}

/// Line numbers never go down from one block to the next.
pub proof fn lemma_start_lines_increase(blocks: Seq<ConflictBlock>, i: int, j: int)
    requires
        0 <= i <= j <= blocks.len(),
    ensures
        total_produced(blocks.take(i)) <= total_produced(blocks.take(j)),
{
    lemma_total_produced_prefix(blocks.take(j), i);
    assert(blocks.take(j).take(i) =~= blocks.take(i));
}

} // verus!
