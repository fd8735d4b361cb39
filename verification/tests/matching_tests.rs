use terminal_studio::matching::{
    closed_session_matches, fuzzy_match, session_row_visible, switcher_matches, switcher_query,
};

#[test]
fn fuzzy_match_basic() {
    assert!(fuzzy_match("toggle left sidebar", "tls"));
    assert!(fuzzy_match("toggle left sidebar", "toggle"));
    assert!(fuzzy_match("split horizontal", "sph"));
    assert!(!fuzzy_match("split horizontal", "xyz"));
}

#[test]
fn fuzzy_match_empty_query() {
    assert!(fuzzy_match("anything", ""));
}

// ---- further cases ----

#[test]
fn fuzzy_match_needs_order() {
    assert!(!fuzzy_match("abc", "cba"));
    assert!(fuzzy_match("abc", "ac"));
    assert!(!fuzzy_match("", "a"));
}

#[test]
fn fuzzy_match_is_case_sensitive_on_its_input() {
    assert!(!fuzzy_match("abc", "A"));
}

#[test]
fn switcher_query_trims_and_lowercases() {
    assert_eq!(switcher_query("  My Proj  "), "my proj");
    assert_eq!(switcher_query(""), "");
}

#[test]
fn switcher_matches_on_workspace_label_and_cwd() {
    assert!(switcher_matches(Some("Alpha"), "bash", "/srv/app", ""));
    assert!(switcher_matches(Some("Alpha"), "bash", "/srv/app", "alpha"));
    assert!(switcher_matches(None, "bash", "/srv/app", "other"));
    assert!(switcher_matches(None, "bash", "/srv/app", "srvapp"));
    assert!(!switcher_matches(Some("Alpha"), "bash", "/srv/app", "zzz"));
}

#[test]
fn switcher_matches_smart_case() {
    // An upper-case letter in the query makes the match case-sensitive.
    assert!(!switcher_matches(Some("alpha"), "bash", "/x", "A"));
    assert!(switcher_matches(Some("Alpha"), "bash", "/x", "A"));
}

#[test]
fn session_row_visible_filters_by_label() {
    assert!(session_row_visible("vim README.md", ""));
    assert!(session_row_visible("vim README.md", "vrm"));
    assert!(!session_row_visible("vim README.md", "xyz"));
}

#[test]
fn closed_session_matches_any_field() {
    assert!(closed_session_matches("", "t", "/c", None, "bash"));
    assert!(closed_session_matches("vim", "VIM notes", "/c", None, "bash"));
    assert!(closed_session_matches("proj", "t", "/home/Proj", None, "bash"));
    assert!(closed_session_matches("work", "t", "/c", Some("Work Stuff"), "bash"));
    assert!(closed_session_matches("power", "t", "/c", None, "PowerShell"));
    assert!(!closed_session_matches("zzz", "t", "/c", Some("w"), "bash"));
}

#[test]
fn closed_session_matches_needs_contiguous_text() {
    assert!(!closed_session_matches("vm", "vim", "/c", None, "sh"));
}
