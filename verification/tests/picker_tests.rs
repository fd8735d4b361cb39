use std::collections::hash_map::DefaultHasher;
use std::hash::{Hash, Hasher};
use std::time::Duration;

use terminal_studio::closed_sessions::{
    decimal_string, format_relative_time, navigate_selection, relative_time_label,
};
use terminal_studio::debounce::Debouncer;
use terminal_studio::fingerprint::text_fingerprint;
use terminal_studio::path_map::PathMap;
use terminal_studio::pickers::{
    filter_closed_sessions, filter_palette, palette_select, picker_keys, ClosedSessionRecord, ClosedSessionsPicker, PaletteState,
};

fn record(id: u64, title: &str, cwd: &str, ws: Option<&str>, shell: &str) -> ClosedSessionRecord {
    ClosedSessionRecord {
        id,
        title: title.to_string(),
        cwd: cwd.to_string(),
        workspace_name: ws.map(|w| w.to_string()),
        shell: shell.to_string(),
        closed_at: 0,
        line_count: 0,
        cols: 80,
        rows: 24,
    }
}

#[test]
fn decimal_strings() {
    assert_eq!(decimal_string(0), "0");
    assert_eq!(decimal_string(7), "7");
    assert_eq!(decimal_string(10), "10");
    assert_eq!(decimal_string(1234567890), "1234567890");
    assert_eq!(decimal_string(u64::MAX), u64::MAX.to_string());
}

#[test]
fn relative_time_labels() {
    assert_eq!(relative_time_label(1000, 1000), "just now");
    assert_eq!(relative_time_label(1059, 1000), "just now");
    assert_eq!(relative_time_label(1060, 1000), "1m ago");
    assert_eq!(relative_time_label(1000 + 3599, 1000), "59m ago");
    assert_eq!(relative_time_label(1000 + 3600, 1000), "1h ago");
    assert_eq!(relative_time_label(1000 + 86399, 1000), "23h ago");
    assert_eq!(relative_time_label(1000 + 86400 * 3, 1000), "3d ago");
    // A close time in the future counts as now.
    assert_eq!(relative_time_label(5, 1000), "just now");
}

#[test]
fn format_relative_time_of_now_and_epoch() {
    let now = std::time::SystemTime::now()
        .duration_since(std::time::UNIX_EPOCH)
        .unwrap()
        .as_secs();
    assert_eq!(format_relative_time(now), "just now");
    assert!(format_relative_time(0).ends_with("d ago"));
}

#[test]
fn navigation_stays_in_list() {
    assert_eq!(navigate_selection(0, 0, true, true), 0);
    assert_eq!(navigate_selection(0, 3, true, false), 0);
    assert_eq!(navigate_selection(1, 3, true, false), 0);
    assert_eq!(navigate_selection(1, 3, false, true), 2);
    assert_eq!(navigate_selection(2, 3, false, true), 2);
    assert_eq!(navigate_selection(10, 3, false, false), 2);
    assert_eq!(navigate_selection(1, 3, true, true), 1);
    assert_eq!(navigate_selection(usize::MAX, 3, false, true), 2);
}

#[test]
fn filtering_closed_sessions() {
    let records = vec![
        record(1, "vim notes", "/home/a", None, "bash"),
        record(2, "htop", "/srv/App", Some("Servers"), "zsh"),
        record(3, "cargo build", "/home/b", Some("Rust"), "PowerShell"),
    ];
    assert_eq!(filter_closed_sessions(&records, ""), vec![0, 1, 2]);
    assert_eq!(filter_closed_sessions(&records, "APP"), vec![1]);
    assert_eq!(filter_closed_sessions(&records, "home"), vec![0, 2]);
    assert_eq!(filter_closed_sessions(&records, "rust"), vec![2]);
    assert_eq!(filter_closed_sessions(&records, "power"), vec![2]);
    assert!(filter_closed_sessions(&records, "nothing").is_empty());
}

#[test]
fn picker_keys_restore_selected() {
    let records = vec![
        record(11, "a", "/", None, "sh"),
        record(22, "b", "/", None, "sh"),
        record(33, "c", "/", None, "sh"),
    ];
    let listed = vec![0, 2];
    assert_eq!(picker_keys(&records, &listed, 0, false, true, false), (1, None));
    assert_eq!(picker_keys(&records, &listed, 0, false, true, true), (1, Some(33)));
    assert_eq!(picker_keys(&records, &listed, 1, true, false, true), (0, Some(11)));
    assert_eq!(picker_keys(&records, &Vec::new(), 3, false, false, true), (0, None));
}

#[test]
fn closing_the_palette_and_the_picker() {
    let mut debouncer = Debouncer::new(Duration::from_secs(1));
    debouncer.update("abc");
    let mut palette = PaletteState {
        open: true,
        query: "abc".into(),
        selected: 4,
        debouncer,
    };
    palette.close_palette();
    assert!(!palette.open);
    assert!(palette.query.is_empty());
    assert_eq!(palette.selected, 0);
    assert!(!palette.debouncer.pending());
    assert!(palette.debouncer.last_query.is_empty());

    let mut picker = ClosedSessionsPicker {
        show: true,
        query: "x".into(),
        selected: 2,
        cache: Some(vec![record(1, "a", "/", None, "sh")]),
    };
    picker.close_closed_sessions_picker();
    assert!(!picker.show);
    assert!(picker.query.is_empty());
    assert_eq!(picker.selected, 0);
    assert!(picker.cache.is_none());
}

fn std_hash(s: &str) -> u64 {
    let mut h = DefaultHasher::new();
    s.hash(&mut h);
    h.finish()
}

#[test]
fn fingerprint_is_the_str_hash() {
    for s in ["", "a", "hello world", "héllo\n", "ab", "a\u{ff}"] {
        assert_eq!(text_fingerprint(s), std_hash(s));
    }
    assert_ne!(text_fingerprint("ab"), text_fingerprint("ba"));
    assert_eq!(text_fingerprint("same"), text_fingerprint("same"));
}

#[test]
fn path_map_insert_get_remove() {
    let mut m: PathMap<u32> = PathMap::new();
    assert_eq!(m.len(), 0);
    m.insert("/a".into(), 1);
    m.insert("/b".into(), 2);
    m.insert("/a".into(), 3);
    assert_eq!(m.len(), 2);
    assert_eq!(m.get("/a"), Some(&3));
    assert_eq!(m.key_at(0), "/a");
    assert_eq!(m.key_at(1), "/b");
    assert_eq!(*m.value_at(1), 2);
    assert_eq!(m.find("/b"), Some(1));
    assert_eq!(m.remove("/a"), Some(3));
    assert_eq!(m.remove("/a"), None);
    assert!(!m.contains_key("/a"));
    assert!(m.contains_key("/b"));
    assert_eq!(m.replace_at(0, 9), 2);
    assert_eq!(m.get("/b"), Some(&9));
}

#[test]
fn palette_filter_lists_matching_labels_in_order() {
    let labels: Vec<String> = vec![
        "toggle left sidebar".into(),
        "split horizontal".into(),
        "split vertical".into(),
    ];
    assert_eq!(filter_palette(&labels, ""), vec![0, 1, 2]);
    assert_eq!(filter_palette(&labels, "sph"), vec![1]);
    assert_eq!(filter_palette(&labels, "tls"), vec![0]);
    assert_eq!(filter_palette(&labels, "split"), vec![1, 2]);
    assert_eq!(filter_palette(&labels, "xyz"), Vec::<usize>::new());
}

#[test]
fn palette_selection_clamps_then_moves() {
    assert_eq!(palette_select(7, 3, false, false), 2);
    assert_eq!(palette_select(7, 3, true, false), 1);
    assert_eq!(palette_select(0, 3, true, false), 0);
    assert_eq!(palette_select(1, 3, false, true), 2);
    assert_eq!(palette_select(2, 3, false, true), 2);
    assert_eq!(palette_select(5, 0, true, true), 0);
}
