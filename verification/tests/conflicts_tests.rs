use terminal_studio::conflicts::{
    block_action, block_start_lines, conflict_header, frame_action, kept_counts, progress_text,
    resolution_label, resolved_lines, side_by_side_rows, toolbar_action, view_toggle,
    ConflictAction, ConflictBlock, Resolution,
};

fn lines(v: &[&str]) -> Vec<String> {
    v.iter().map(|s| s.to_string()).collect()
}

fn conflict(index: usize, ours: &[&str], theirs: &[&str], resolved: Option<Resolution>) -> ConflictBlock {
    ConflictBlock::Conflict {
        index,
        ours_lines: lines(ours),
        theirs_lines: lines(theirs),
        ours_label: "HEAD".into(),
        theirs_label: "feature".into(),
        resolved,
    }
}

#[test]
fn resolutions_keep_lines() {
    let o = lines(&["a", "b"]);
    let t = lines(&["c"]);
    assert_eq!(resolved_lines(&o, &t, Resolution::Ours), lines(&["a", "b"]));
    assert_eq!(resolved_lines(&o, &t, Resolution::Theirs), lines(&["c"]));
    assert_eq!(resolved_lines(&o, &t, Resolution::Both), lines(&["a", "b", "c"]));
    assert_eq!(kept_counts(Resolution::Ours, 2, 1), (2, 0));
    assert_eq!(kept_counts(Resolution::Theirs, 2, 1), (0, 1));
    assert_eq!(kept_counts(Resolution::Both, 2, 1), (2, 1));
    assert_eq!(side_by_side_rows(2, 5), 5);
    assert_eq!(side_by_side_rows(3, 1), 3);
    assert_eq!(resolution_label(Resolution::Both), "Resolved: Both");
    assert_eq!(resolution_label(Resolution::Theirs), "Resolved: Theirs");
}

#[test]
fn lines_are_numbered_through_the_resolved_file() {
    let blocks = vec![
        ConflictBlock::Context { lines: lines(&["x", "y"]) },
        conflict(0, &["a"], &["b", "c"], None),
        ConflictBlock::Context { lines: lines(&["z"]) },
        conflict(1, &["a"], &["b", "c"], Some(Resolution::Both)),
        ConflictBlock::Context { lines: lines(&["w"]) },
    ];
    assert_eq!(block_start_lines(&blocks), vec![1, 3, 3, 4, 7]);
    assert!(block_start_lines(&Vec::new()).is_empty());
}

#[test]
fn bar_texts() {
    assert_eq!(conflict_header(0, 3), "CONFLICT 1/3");
    assert_eq!(conflict_header(9, 12), "CONFLICT 10/12");
    assert_eq!(progress_text(2, 5), "2/5 resolved");
}

#[test]
fn which_click_wins() {
    assert_eq!(toolbar_action(1, 3, true, true), Some(ConflictAction::AllOurs));
    assert_eq!(toolbar_action(1, 3, true, false), Some(ConflictAction::AllTheirs));
    assert_eq!(toolbar_action(3, 3, true, true), None);
    assert_eq!(
        block_action(2, true, true, false),
        Some(ConflictAction::Single { conflict_index: 2, resolution: Resolution::Theirs })
    );
    assert_eq!(
        block_action(2, true, false, false),
        Some(ConflictAction::Single { conflict_index: 2, resolution: Resolution::Both })
    );
    assert_eq!(block_action(2, false, false, false), None);
    let blocks = vec![None, block_action(4, false, false, true), block_action(5, true, false, false)];
    assert_eq!(
        frame_action(None, &blocks),
        Some(ConflictAction::Single { conflict_index: 4, resolution: Resolution::Ours })
    );
    assert_eq!(
        frame_action(Some(ConflictAction::AllTheirs), &blocks),
        Some(ConflictAction::AllTheirs)
    );
    assert_eq!(frame_action(None, &vec![None, None]), None);
}

#[test]
fn view_mode_buttons() {
    assert_eq!(view_toggle(false, false, true), Some(true));
    assert_eq!(view_toggle(true, true, false), Some(false));
    assert_eq!(view_toggle(true, false, true), None);
    assert_eq!(view_toggle(false, true, false), None);
    assert_eq!(view_toggle(true, true, true), Some(false));
}
