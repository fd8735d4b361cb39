use vstd::prelude::*;

pub mod bars;
pub mod closed_sessions;
pub mod conflicts;
pub mod debounce;
pub mod fingerprint;
pub mod layout;
pub mod matching;
pub mod navigation;
pub mod panes;
pub mod path_map;
pub mod pickers;
pub mod sidebar;
pub mod tabs;
pub mod text;
pub mod switcher;
pub mod title;
pub mod titlebar;
pub mod watch;
pub mod worker;

verus! {
} // verus!
