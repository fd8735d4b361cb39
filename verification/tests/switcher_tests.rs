use terminal_studio::switcher::{column_order, entry_letter, switcher_escape, switcher_keys};

#[test]
fn columns_most_recent_first() {
    assert_eq!(column_order(&vec![5, 9, 5, 0, 9]), vec![1, 4, 0, 2, 3]);
    assert!(column_order(&Vec::new()).is_empty());
}

#[test]
fn entry_letters() {
    assert_eq!(entry_letter(0), Some('a'));
    assert_eq!(entry_letter(25), Some('z'));
    assert_eq!(entry_letter(26), None);
}

#[test]
fn escape_clears_search_then_closes() {
    assert_eq!(switcher_escape(true, false, true), (true, false));
    assert_eq!(switcher_escape(true, true, true), (false, true));
    assert_eq!(switcher_escape(false, false, true), (false, true));
    assert_eq!(switcher_escape(true, false, false), (false, false));
}

#[test]
fn keys_select_columns_and_entries() {
    let sizes = vec![2, 3];
    // A digit selects a column.
    let s = switcher_keys(false, None, Some(1), None, false, false, &sizes);
    assert_eq!(s.selected_column, Some(1));
    assert_eq!(s.pick, None);
    // A digit past the columns changes nothing.
    let s = switcher_keys(false, Some(0), Some(5), None, false, false, &sizes);
    assert_eq!(s.selected_column, Some(0));
    // A letter picks in the selected column.
    let s = switcher_keys(false, Some(1), None, Some(2), false, false, &sizes);
    assert_eq!(s.pick, Some((1, 2)));
    let s = switcher_keys(false, Some(0), None, Some(2), false, false, &sizes);
    assert_eq!(s.pick, None);
    // Without a selected column letters do nothing.
    let s = switcher_keys(false, None, None, Some(0), false, false, &sizes);
    assert_eq!(s.pick, None);
    // `/` starts a search and drops the selection; keys then go to the search.
    let s = switcher_keys(false, Some(1), None, None, true, false, &sizes);
    assert!(s.search_active);
    assert_eq!(s.selected_column, None);
    let s = switcher_keys(true, Some(1), Some(0), Some(0), false, false, &sizes);
    assert_eq!(s.selected_column, Some(1));
    assert_eq!(s.pick, None);
    // Enter picks the first entry shown, over a letter.
    let s = switcher_keys(false, Some(1), None, Some(1), false, true, &vec![0, 3]);
    assert_eq!(s.pick, Some((1, 0)));
    let s = switcher_keys(false, None, None, None, false, true, &vec![0, 0]);
    assert_eq!(s.pick, None);
}
