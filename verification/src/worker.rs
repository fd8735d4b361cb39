//! The decisions of the directory-watcher thread: which working directories to
//! watch, which results a batch of file-system events yields, and when a
//! debounced git refresh matures. The thread itself (the `notify` watcher,
//! reading files, listing directories, finding git roots) runs the I/O and
//! hands these functions plain values.
use vstd::prelude::*;

use crate::path_map::PathMap;
use crate::text::str_eq;
use crate::watch::{WatchResult, WatchResultView, results_view, strings_view};

verus! {

// ── Paths ────────────────────────────────────────────────────────────────────

/// `Path::parent` of a path, as a string.
pub uninterp spec fn path_parent(p: Seq<char>) -> Option<Seq<char>>;

/// `Path::extension` of a path, as a string.
pub uninterp spec fn path_extension(p: Seq<char>) -> Option<Seq<char>>;

/// `Path::join` of two paths, as a string.
pub uninterp spec fn path_join(a: Seq<char>, b: Seq<char>) -> Seq<char>;

/// Calls `Path::parent` (then `Path::to_str`). The contract claims that the
/// result is the one named `path_parent`, and, as the documentation says the
/// parent is the path without its final component, that it is shorter.
#[verifier::external_body]
pub(crate) fn parent_of(p: &str) -> (r: Option<String>)
    ensures
        r is None <==> path_parent(p@) is None,
        r matches Some(q) ==> path_parent(p@) == Some(q@) && q@.len() < p@.len(),
{
    std::path::Path::new(p).parent().and_then(|q| q.to_str()).map(|q| q.to_string())
}

/// Calls `Path::extension` (then `OsStr::to_str`); the contract claims only
/// that the result is the one named `path_extension`.
#[verifier::external_body]
fn extension_of(p: &str) -> (r: Option<String>)
    ensures
        r is None <==> path_extension(p@) is None,
        r matches Some(e) ==> path_extension(p@) == Some(e@),
{
    std::path::Path::new(p).extension().and_then(|e| e.to_str()).map(|e| e.to_string())
}

/// Calls `Path::join` (then `Path::to_string_lossy`, lossless on paths made
/// of strings); the contract claims only that the result is the one named
/// `path_join`.
#[verifier::external_body]
fn join_path(a: &str, b: &str) -> (r: String)
    ensures
        r@ == path_join(a@, b@),
{
    std::path::Path::new(a).join(b).to_string_lossy().into_owned()
}

/// A markdown file: its extension is `md`.
pub open spec fn is_md(path: Seq<char>) -> bool {
    path_extension(path) == Some("md"@)
}

/// Whether `path` names a markdown file (by its extension).
pub fn is_md_path(path: &str) -> (b: bool)
    ensures
        b == is_md(path@),
{
    match extension_of(path) {
        Some(e) => {
            let b = str_eq(e.as_str(), "md");
            b
        },
        None => false,
    }
}

// ── State ────────────────────────────────────────────────────────────────────

/// What the watcher thread keeps of one watched directory.
pub struct DirWatch {
    pub is_git: bool,
    /// The git root found for the directory when it was added.
    pub git_root: Option<String>,
    /// The markdown files of the directory it has reported.
    pub known_md: PathMap<()>,
}

/// A watched directory as plain values.
pub struct DirWatchView {
    pub is_git: bool,
    pub git_root: Option<Seq<char>>,
    pub known_md: Set<Seq<char>>,
}

pub open spec fn opt_str_view(o: Option<String>) -> Option<Seq<char>> {
    match o {
        Some(s) => Some(s@),
        None => None,
    }
}

impl View for DirWatch {
    type V = DirWatchView;

    open spec fn view(&self) -> DirWatchView {
        DirWatchView {
            is_git: self.is_git,
            git_root: opt_str_view(self.git_root),
            known_md: self.known_md@.dom(),
        }
    }
}

/// The state of the watcher thread.
pub struct WorkerState {
    /// The watched working directories.
    pub dirs: PathMap<DirWatch>,
    /// Each watched `.git` directory, with the working directory whose watch
    /// it belongs to.
    pub git_dirs: PathMap<String>,
    /// When each directory's debounced git refresh matures, in milliseconds.
    pub pending: PathMap<u64>,
    /// The files open in editors.
    pub editor_files: Vec<String>,
}

impl WorkerState {
    /// The watched directories as plain values.
    pub open spec fn dirs_view(&self) -> Map<Seq<char>, DirWatchView> {
        self.dirs@.map_values(|d: DirWatch| d@)
    }

    /// The watched `.git` directories, as plain values.
    pub open spec fn git_dirs_view(&self) -> Map<Seq<char>, Seq<char>> {
        self.git_dirs@.map_values(|s: String| s@)
    }

    /// A watcher that watches nothing yet.
    pub fn new() -> (r: Self)
        ensures
            r.dirs_view() == Map::<Seq<char>, DirWatchView>::empty(),
            r.git_dirs_view() == Map::<Seq<char>, Seq<char>>::empty(),
            r.pending@ == Map::<Seq<char>, u64>::empty(),
            r.editor_files@.len() == 0,
    {
        let r = WorkerState {
            dirs: PathMap::new(),
            git_dirs: PathMap::new(),
            pending: PathMap::new(),
            editor_files: Vec::new(),
        };
        assert(r.dirs_view() =~= Map::<Seq<char>, DirWatchView>::empty());
        assert(r.git_dirs_view() =~= Map::<Seq<char>, Seq<char>>::empty());
        r
    }
}

// ── Which watched directories an event concerns ──────────────────────────────

/// The nearest of `p` and its ancestors that is watched, or the last ancestor
/// reached when none is.
pub open spec fn climb(dirs: Map<Seq<char>, DirWatchView>, p: Seq<char>) -> Seq<char>
    decreases p.len(),
{
    if dirs.contains_key(p) {
        p
    } else {
        match path_parent(p) {
            Some(q) => if q.len() < p.len() {
                climb(dirs, q)
            } else {
                p
            },
            None => p,
        }
    }
}

/// The watched git directories (in table order) whose git root is `root`.
pub open spec fn git_sharing(keys: Seq<Seq<char>>, dirs: Map<Seq<char>, DirWatchView>, root: Seq<char>) -> Seq<Seq<char>>
    decreases keys.len(),
{
    if keys.len() == 0 {
        Seq::empty()
    } else {
        git_sharing(keys.drop_last(), dirs, root) + (if dirs.contains_key(keys.last())
            && dirs[keys.last()].is_git && dirs[keys.last()].git_root == Some(root) {
            seq![keys.last()]
        } else {
            Seq::empty()
        })
    }
}

/// The directories an event on `path` concerns: none for a path without a
/// parent; every watched directory of the repository for a path inside a
/// watched `.git` directory; else the nearest watched ancestor.
pub open spec fn event_dirs(
    keys: Seq<Seq<char>>,
    dirs: Map<Seq<char>, DirWatchView>,
    git_dirs: Map<Seq<char>, Seq<char>>,
    path: Seq<char>,
) -> Option<Seq<Seq<char>>> {
    match path_parent(path) {
        None => None,
        Some(p) => if git_dirs.contains_key(p) {
            let root = match path_parent(p) {
                Some(r) => r,
                None => p,
            };
            Some(git_sharing(keys, dirs, root))
        } else {
            Some(seq![climb(dirs, p)])
        },
    }
}

impl WorkerState {
    /// The nearest watched ancestor of `p` (or `p` itself), as `climb`.
    fn climb_from(&self, p: &str) -> (r: String)
        ensures
            r@ == climb(self.dirs_view(), p@),
    {
        let mut cur = p.to_string();
        loop
            invariant
                climb(self.dirs_view(), cur@) == climb(self.dirs_view(), p@),
            decreases cur@.len(),
        {
            if self.dirs.contains_key(cur.as_str()) {
                return cur;
            }
            match parent_of(cur.as_str()) {
                Some(q) => {
                    if str_eq(q.as_str(), cur.as_str()) {
                        return cur;
                    }
                    cur = q;
                },
                None => {
                    return cur;
                },
            }
        }
    }

    /// The watched git directories whose git root is `root`, in table order.
    fn sharing_root(&self, root: &str) -> (r: Vec<String>)
        ensures
            strings_view(r@) == git_sharing(self.dirs.keys(), self.dirs_view(), root@),
    {
        let ghost keys = self.dirs.keys();
        let mut r: Vec<String> = Vec::new();
        let mut i: usize = 0;
        let n = self.dirs.len();
        assert(keys.take(0) =~= Seq::<Seq<char>>::empty());
        assert(strings_view(r@) =~= Seq::<Seq<char>>::empty());
        while i < n
            invariant
                0 <= i <= n,
                n == keys.len(),
                keys == self.dirs.keys(),
                strings_view(r@) == git_sharing(keys.take(i as int), self.dirs_view(), root@),
            decreases n - i,
        {
            assert(keys.take(i + 1).drop_last() =~= keys.take(i as int));
            assert(keys.take(i + 1).last() == keys[i as int]);
            let d = self.dirs.value_at(i);
            let shares = d.is_git && match &d.git_root {
                Some(gr) => str_eq(gr.as_str(), root),
                None => false,
            };
            if shares {
                let k = self.dirs.key_at(i).clone();
                r.push(k);
            }
            assert(strings_view(r@) =~= git_sharing(keys.take(i + 1), self.dirs_view(), root@));
            i = i + 1;
        }
        assert(keys.take(n as int) =~= keys);
        r
    }

    /// The directories an event on `path` concerns, as `event_dirs` (`None`
    /// when the path has no parent).
    pub fn event_dirs_of(&self, path: &str) -> (r: Option<Vec<String>>)
        ensures
            match r {
                None => event_dirs(self.dirs.keys(), self.dirs_view(), self.git_dirs_view(), path@) is None,
                Some(v) => event_dirs(self.dirs.keys(), self.dirs_view(), self.git_dirs_view(), path@)
                    == Some(strings_view(v@)),
            },
    {
        let p = match parent_of(path) {
            Some(p) => p,
            None => {
                return None;
            },
        };
        if self.git_dirs.contains_key(p.as_str()) {
            let root = match parent_of(p.as_str()) {
                Some(r) => r,
                None => p.clone(),
            };
            Some(self.sharing_root(root.as_str()))
        } else {
            let d = self.climb_from(p.as_str());
            let ghost dv = d@;
            let v = vec![d];
            assert(strings_view(v@) =~= seq![dv]);
            Some(v)
        }
    }
}

// ── Processing file-system events ───────────────────────────────────────────

/// A file-system event kind, as the watcher thread tells them apart.
#[derive(Clone, Copy, Debug, PartialEq, Eq, Structural)]
pub enum FsEventKind {
    Create,
    Modify,
    Remove,
    Other,
}

/// A file-system event: its kind and its paths, each with the content of the
/// file where it is a markdown file of at most 1 MiB that was read.
pub struct FsEvent {
    pub kind: FsEventKind,
    pub paths: Vec<(String, Option<String>)>,
}

/// A file-system event as plain values.
pub struct FsEventView {
    pub kind: FsEventKind,
    pub paths: Seq<(Seq<char>, Option<Seq<char>>)>,
}

pub open spec fn probe_view(p: (String, Option<String>)) -> (Seq<char>, Option<Seq<char>>) {
    (p.0@, opt_str_view(p.1))
}

impl View for FsEvent {
    type V = FsEventView;

    open spec fn view(&self) -> FsEventView {
        FsEventView { kind: self.kind, paths: self.paths@.map_values(|p: (String, Option<String>)| probe_view(p)) }
    }
}

pub open spec fn events_view(v: Seq<FsEvent>) -> Seq<FsEventView> {
    v.map_values(|e: FsEvent| e@)
}

/// Where processing a batch of events stands: the watched directories, the
/// pending git refreshes, the editor files already reported, the directories
/// whose entries need listing again, and the results to send, in order.
pub struct Progress {
    pub dirs: Map<Seq<char>, DirWatchView>,
    pub pending: Map<Seq<char>, u64>,
    pub sent: Seq<Seq<char>>,
    pub refresh: Seq<Seq<char>>,
    pub results: Seq<WatchResultView>,
}

/// `s` with `x` added at the end unless it is already there.
pub open spec fn add_unique(s: Seq<Seq<char>>, x: Seq<char>) -> Seq<Seq<char>> {
    if s.contains(x) {
        s
    } else {
        s.push(x)
    }
}

/// The pending refreshes after a change in `dir`: a git directory with no
/// refresh pending gets one due at `due`.
pub open spec fn schedule(pending: Map<Seq<char>, u64>, dir: Seq<char>, is_git: bool, due: u64) -> Map<
    Seq<char>,
    u64,
> {
    if is_git && !pending.contains_key(dir) {
        pending.insert(dir, due)
    } else {
        pending
    }
}

/// The effect of an event of kind `kind` on `path` on the watched directory
/// `dir` (none when `dir` is not watched). A created markdown file that was
/// read is reported and remembered; a modified one is reported when known; a
/// removed known one is reported and forgotten. Creations and removals have
/// the directory listed again; every change schedules a git refresh for a git
/// directory.
pub open spec fn dir_step(
    g: Progress,
    kind: FsEventKind,
    path: Seq<char>,
    md: bool,
    content: Option<Seq<char>>,
    dir: Seq<char>,
    due: u64,
) -> Progress {
    if !g.dirs.contains_key(dir) {
        g
    } else {
        let d = g.dirs[dir];
        match kind {
            FsEventKind::Create => Progress {
                dirs: if md && content is Some {
                    g.dirs.insert(dir, DirWatchView { known_md: d.known_md.insert(path), ..d })
                } else {
                    g.dirs
                },
                results: if md && content is Some {
                    g.results.push(WatchResultView::MdCreated { dir, path, content: content->0 })
                } else {
                    g.results
                },
                refresh: add_unique(g.refresh, dir),
                pending: schedule(g.pending, dir, d.is_git, due),
                ..g
            },
            FsEventKind::Modify => Progress {
                results: if md && content is Some && d.known_md.contains(path) {
                    g.results.push(WatchResultView::MdCreated { dir, path, content: content->0 })
                } else {
                    g.results
                },
                pending: schedule(g.pending, dir, d.is_git, due),
                ..g
            },
            FsEventKind::Remove => Progress {
                dirs: if d.known_md.contains(path) {
                    g.dirs.insert(dir, DirWatchView { known_md: d.known_md.remove(path), ..d })
                } else {
                    g.dirs
                },
                results: if d.known_md.contains(path) {
                    g.results.push(WatchResultView::MdRemoved { dir, path })
                } else {
                    g.results
                },
                refresh: add_unique(g.refresh, dir),
                pending: schedule(g.pending, dir, d.is_git, due),
                ..g
            },
            FsEventKind::Other => g,
        }
    }
}

/// `dir_step` for each of `ds`, in order.
pub open spec fn dirs_fold(
    g: Progress,
    kind: FsEventKind,
    path: Seq<char>,
    md: bool,
    content: Option<Seq<char>>,
    ds: Seq<Seq<char>>,
    due: u64,
) -> Progress
    decreases ds.len(),
{
    if ds.len() == 0 {
        g
    } else {
        dir_step(dirs_fold(g, kind, path, md, content, ds.drop_last(), due), kind, path, md, content, ds.last(), due)
    }
}

/// The effect of one path of an event: a created or modified editor file is
/// reported once per batch; then each directory the path concerns takes the
/// change.
pub open spec fn path_step(
    g: Progress,
    keys: Seq<Seq<char>>,
    git_dirs: Map<Seq<char>, Seq<char>>,
    editor_files: Seq<Seq<char>>,
    kind: FsEventKind,
    path: Seq<char>,
    content: Option<Seq<char>>,
    due: u64,
) -> Progress {
    let g1 = if (kind == FsEventKind::Create || kind == FsEventKind::Modify) && editor_files.contains(path)
        && !g.sent.contains(path) {
        Progress { sent: g.sent.push(path), results: g.results.push(WatchResultView::FileModified(path)), ..g }
    } else {
        g
    };
    match event_dirs(keys, g1.dirs, git_dirs, path) {
        None => g1,
        Some(ds) => dirs_fold(g1, kind, path, is_md(path), content, ds, due),
    }
}

/// The progress that a state and a batch's collections stand for.
pub open spec fn progress_of(
    w: WorkerState,
    sent: Seq<String>,
    refresh: Seq<String>,
    results: Seq<WatchResult>,
) -> Progress {
    Progress {
        dirs: w.dirs_view(),
        pending: w.pending@,
        sent: strings_view(sent),
        refresh: strings_view(refresh),
        results: results_view(results),
    }
}

proof fn lemma_watch_insert(m: Map<Seq<char>, DirWatch>, k: Seq<char>, d: DirWatch)
    ensures
        m.insert(k, d).map_values(|x: DirWatch| x@) == m.map_values(|x: DirWatch| x@).insert(k, d@),
{
    assert(m.insert(k, d).map_values(|x: DirWatch| x@) =~= m.map_values(|x: DirWatch| x@).insert(
        k,
        d@,
    ));
}

fn placeholder_watch() -> (d: DirWatch)
    ensures
        d@ == (DirWatchView { is_git: false, git_root: None, known_md: Set::empty() }),
{
    let d = DirWatch { is_git: false, git_root: None, known_md: PathMap::new() };
    assert(d@.known_md =~= Set::<Seq<char>>::empty());
    d
}

/// Adds `x` to `v` unless it is there already.
fn add_unique_to(v: &mut Vec<String>, x: &str)
    ensures
        strings_view(final(v)@) == add_unique(strings_view(old(v)@), x@),
{
    let mut i: usize = 0;
    while i < v.len()
        invariant
            0 <= i <= v.len(),
            v@ == old(v)@,
            forall|j: int| 0 <= j < i ==> v@[j]@ != x@,
        decreases v.len() - i,
    {
        if str_eq(v[i].as_str(), x) {
            proof {
                assert(strings_view(v@)[i as int] == x@);
            }
            return;
        }
        i = i + 1;
    }
    proof {
        if strings_view(v@).contains(x@) {
            let j = choose|j: int| 0 <= j < strings_view(v@).len() && strings_view(v@)[j] == x@;
            assert(v@[j]@ == x@);
        }
    }
    let ghost before = v@;
    v.push(x.to_string());
    assert(strings_view(v@) =~= strings_view(before).push(x@));
}

impl WorkerState {
    /// Schedules a git refresh of `dir` at `due` when it is a git directory
    /// with none pending.
    fn schedule_refresh(&mut self, dir: &str, is_git: bool, due: u64)
        ensures
            final(self).pending@ == schedule(old(self).pending@, dir@, is_git, due),
            final(self).dirs == old(self).dirs,
            final(self).git_dirs == old(self).git_dirs,
            final(self).editor_files == old(self).editor_files,
    {
        if is_git && !self.pending.contains_key(dir) {
            self.pending.insert(dir.to_string(), due);
        }
    }

    /// Applies an event on `path` to the watched directory `dir`, as `dir_step`.
    fn process_dir(
        &mut self,
        kind: FsEventKind,
        path: &str,
        md: bool,
        content: &Option<String>,
        dir: &str,
        due: u64,
        sent: &Vec<String>,
        refresh: &mut Vec<String>,
        results: &mut Vec<WatchResult>,
    )
        ensures
            progress_of(*final(self), sent@, final(refresh)@, final(results)@) == dir_step(
                progress_of(*old(self), sent@, old(refresh)@, old(results)@),
                kind,
                path@,
                md,
                opt_str_view(*content),
                dir@,
                due,
            ),
            final(self).dirs.keys() == old(self).dirs.keys(),
            final(self).git_dirs == old(self).git_dirs,
            final(self).editor_files == old(self).editor_files,
    {
        let ghost g = progress_of(*self, sent@, refresh@, results@);
        let i = match self.dirs.find(dir) {
            Some(i) => i,
            None => {
                return;
            },
        };
        let ghost k = self.dirs.keys()[i as int];
        let ghost d0 = self.dirs@[k];
        let is_git = self.dirs.value_at(i).is_git;
        match kind {
            FsEventKind::Create => {
                if md {
                    if let Some(c) = content {
                        let mut d = self.dirs.replace_at(i, placeholder_watch());
                        d.known_md.insert(path.to_string(), ());
                        let ghost d1 = d;
                        let _ = self.dirs.replace_at(i, d);
                        proof {
                            assert(self.dirs@ =~= old(self).dirs@.insert(k, d1));
                            lemma_watch_insert(old(self).dirs@, k, d1);
                            assert(d1.known_md@.dom() =~= d0.known_md@.dom().insert(path@));
                            assert(d1@ == DirWatchView { known_md: d0@.known_md.insert(path@), ..d0@ });
                            assert(self.dirs_view() == g.dirs.insert(dir@, DirWatchView { known_md: d0@.known_md.insert(path@), ..d0@ }));
                        }
                        let m = WatchResult::MdCreated {
                            dir: dir.to_string(),
                            path: path.to_string(),
                            content: c.clone(),
                        };
                        let ghost before = results@;
                        results.push(m);
                        assert(results_view(results@) =~= results_view(before).push(m@));
                    }
                }
                add_unique_to(refresh, dir);
                self.schedule_refresh(dir, is_git, due);
                assert(progress_of(*self, sent@, refresh@, results@) == dir_step(g, kind, path@, md, opt_str_view(*content), dir@, due));
            },
            FsEventKind::Modify => {
                if md {
                    if let Some(c) = content {
                        if self.dirs.value_at(i).known_md.contains_key(path) {
                            let m = WatchResult::MdCreated {
                                dir: dir.to_string(),
                                path: path.to_string(),
                                content: c.clone(),
                            };
                            let ghost before = results@;
                            results.push(m);
                            assert(results_view(results@) =~= results_view(before).push(m@));
                        }
                    }
                }
                self.schedule_refresh(dir, is_git, due);
                assert(progress_of(*self, sent@, refresh@, results@) == dir_step(g, kind, path@, md, opt_str_view(*content), dir@, due));
            },
            FsEventKind::Remove => {
                if self.dirs.value_at(i).known_md.contains_key(path) {
                    let mut d = self.dirs.replace_at(i, placeholder_watch());
                    let _ = d.known_md.remove(path);
                    let ghost d1 = d;
                    let _ = self.dirs.replace_at(i, d);
                    proof {
                        assert(self.dirs@ =~= old(self).dirs@.insert(k, d1));
                        lemma_watch_insert(old(self).dirs@, k, d1);
                        assert(d1.known_md@.dom() =~= d0.known_md@.dom().remove(path@));
                        assert(d1@ == DirWatchView { known_md: d0@.known_md.remove(path@), ..d0@ });
                        assert(self.dirs_view() == g.dirs.insert(dir@, DirWatchView { known_md: d0@.known_md.remove(path@), ..d0@ }));
                    }
                    let m = WatchResult::MdRemoved { dir: dir.to_string(), path: path.to_string() };
                    let ghost before = results@;
                    results.push(m);
                    assert(results_view(results@) =~= results_view(before).push(m@));
                }
                add_unique_to(refresh, dir);
                self.schedule_refresh(dir, is_git, due);
                assert(progress_of(*self, sent@, refresh@, results@) == dir_step(g, kind, path@, md, opt_str_view(*content), dir@, due));
            },
            FsEventKind::Other => {},
        }
    }
}

/// `path_step` for each path of an event of kind `kind`, in order.
pub open spec fn paths_fold(
    g: Progress,
    keys: Seq<Seq<char>>,
    git_dirs: Map<Seq<char>, Seq<char>>,
    editor_files: Seq<Seq<char>>,
    kind: FsEventKind,
    paths: Seq<(Seq<char>, Option<Seq<char>>)>,
    due: u64,
) -> Progress
    decreases paths.len(),
{
    if paths.len() == 0 {
        g
    } else {
        path_step(
            paths_fold(g, keys, git_dirs, editor_files, kind, paths.drop_last(), due),
            keys,
            git_dirs,
            editor_files,
            kind,
            paths.last().0,
            paths.last().1,
            due,
        )
    }
}

/// Every path of every event, in order.
pub open spec fn events_fold(
    g: Progress,
    keys: Seq<Seq<char>>,
    git_dirs: Map<Seq<char>, Seq<char>>,
    editor_files: Seq<Seq<char>>,
    evs: Seq<FsEventView>,
    due: u64,
) -> Progress
    decreases evs.len(),
{
    if evs.len() == 0 {
        g
    } else {
        paths_fold(
            events_fold(g, keys, git_dirs, editor_files, evs.drop_last(), due),
            keys,
            git_dirs,
            editor_files,
            evs.last().kind,
            evs.last().paths,
            due,
        )
    }
}

/// A batch starts from the watched directories and pending refreshes, with
/// nothing reported yet.
pub open spec fn batch_start(dirs: Map<Seq<char>, DirWatchView>, pending: Map<Seq<char>, u64>) -> Progress {
    Progress { dirs, pending, sent: Seq::empty(), refresh: Seq::empty(), results: Seq::empty() }
}

/// Whether `x` is among `v`.
fn contains_string(v: &Vec<String>, x: &str) -> (b: bool)
    ensures
        b == strings_view(v@).contains(x@),
{
    let mut i: usize = 0;
    while i < v.len()
        invariant
            0 <= i <= v.len(),
            forall|j: int| 0 <= j < i ==> v@[j]@ != x@,
        decreases v.len() - i,
    {
        if str_eq(v[i].as_str(), x) {
            assert(strings_view(v@)[i as int] == x@);
            return true;
        }
        i = i + 1;
    }
    proof {
        if strings_view(v@).contains(x@) {
            let j = choose|j: int| 0 <= j < strings_view(v@).len() && strings_view(v@)[j] == x@;
            assert(v@[j]@ == x@);
        }
    }
    false
}

impl WorkerState {
    /// Applies one path of an event, as `path_step`.
    fn process_path(
        &mut self,
        kind: FsEventKind,
        path: &str,
        content: &Option<String>,
        due: u64,
        sent: &mut Vec<String>,
        refresh: &mut Vec<String>,
        results: &mut Vec<WatchResult>,
    )
        ensures
            progress_of(*final(self), final(sent)@, final(refresh)@, final(results)@) == path_step(
                progress_of(*old(self), old(sent)@, old(refresh)@, old(results)@),
                old(self).dirs.keys(),
                old(self).git_dirs_view(),
                strings_view(old(self).editor_files@),
                kind,
                path@,
                opt_str_view(*content),
                due,
            ),
            final(self).dirs.keys() == old(self).dirs.keys(),
            final(self).git_dirs == old(self).git_dirs,
            final(self).editor_files == old(self).editor_files,
    {
        let ghost g = progress_of(*self, sent@, refresh@, results@);
        if (kind == FsEventKind::Create || kind == FsEventKind::Modify) && contains_string(
            &self.editor_files,
            path,
        ) && !contains_string(sent, path) {
            let ghost s0 = sent@;
            let ghost r0 = results@;
            sent.push(path.to_string());
            let m = WatchResult::FileModified(path.to_string());
            results.push(m);
            assert(strings_view(sent@) =~= strings_view(s0).push(path@));
            assert(results_view(results@) =~= results_view(r0).push(m@));
        }
        let ghost g1 = progress_of(*self, sent@, refresh@, results@);
        let ds = match self.event_dirs_of(path) {
            Some(ds) => ds,
            None => {
                return;
            },
        };
        let md = is_md_path(path);
        let ghost dsv = strings_view(ds@);
        let ghost keys = self.dirs.keys();
        let mut j: usize = 0;
        assert(dsv.take(0) =~= Seq::<Seq<char>>::empty());
        while j < ds.len()
            invariant
                0 <= j <= ds.len(),
                dsv == strings_view(ds@),
                progress_of(*self, sent@, refresh@, results@) == dirs_fold(
                    g1,
                    kind,
                    path@,
                    md,
                    opt_str_view(*content),
                    dsv.take(j as int),
                    due,
                ),
                self.dirs.keys() == old(self).dirs.keys(),
                self.git_dirs == old(self).git_dirs,
                self.editor_files == old(self).editor_files,
            decreases ds.len() - j,
        {
            assert(dsv.take(j + 1).drop_last() =~= dsv.take(j as int));
            assert(dsv.take(j + 1).last() == ds@[j as int]@);
            self.process_dir(kind, path, md, content, ds[j].as_str(), due, sent, refresh, results);
            j = j + 1;
        }
        assert(dsv.take(ds.len() as int) =~= dsv);
    }

    /// Processes a batch of file-system events at time `now` (milliseconds),
    /// with git refreshes debounced by `debounce` milliseconds: returns the
    /// results to send, in order, and the directories whose entries need
    /// listing again.
    pub fn process_events(&mut self, events: &Vec<FsEvent>, now: u64, debounce: u64) -> (r: (
        Vec<WatchResult>,
        Vec<String>,
    ))
        requires
            now + debounce <= u64::MAX,
        ensures
            ({
                let g = events_fold(
                    batch_start(old(self).dirs_view(), old(self).pending@),
                    old(self).dirs.keys(),
                    old(self).git_dirs_view(),
                    strings_view(old(self).editor_files@),
                    events_view(events@),
                    (now + debounce) as u64,
                );
                &&& final(self).dirs_view() == g.dirs
                &&& final(self).pending@ == g.pending
                &&& results_view(r.0@) == g.results
                &&& strings_view(r.1@) == g.refresh
            }),
            strings_view(r.1@).no_duplicates(),
            modified_once(results_view(r.0@)),
            forall|k: Seq<char>|
                #[trigger] old(self).pending@.contains_key(k) ==> final(self).pending@.contains_key(k)
                    && final(self).pending@[k] == old(self).pending@[k],
            forall|k: Seq<char>|
                #[trigger] final(self).pending@.contains_key(k) && !old(self).pending@.contains_key(k)
                    ==> final(self).pending@[k] == now + debounce && old(self).dirs_view().contains_key(k)
                    && old(self).dirs_view()[k].is_git,
            final(self).dirs.keys() == old(self).dirs.keys(),
            final(self).git_dirs == old(self).git_dirs,
            final(self).editor_files == old(self).editor_files,
    {
        let due = now + debounce;
        let ghost keys = self.dirs.keys();
        let ghost gd = self.git_dirs_view();
        let ghost ef = strings_view(self.editor_files@);
        let ghost evs = events_view(events@);
        let ghost start = batch_start(self.dirs_view(), self.pending@);
        let mut sent: Vec<String> = Vec::new();
        let mut refresh: Vec<String> = Vec::new();
        let mut results: Vec<WatchResult> = Vec::new();
        assert(strings_view(sent@) =~= Seq::<Seq<char>>::empty());
        assert(strings_view(refresh@) =~= Seq::<Seq<char>>::empty());
        assert(results_view(results@) =~= Seq::<WatchResultView>::empty());
        assert(evs.take(0) =~= Seq::<FsEventView>::empty());
        let mut e: usize = 0;
        while e < events.len()
            invariant
                0 <= e <= events.len(),
                evs == events_view(events@),
                keys == old(self).dirs.keys(),
                gd == old(self).git_dirs_view(),
                ef == strings_view(old(self).editor_files@),
                start == batch_start(old(self).dirs_view(), old(self).pending@),
                progress_of(*self, sent@, refresh@, results@) == events_fold(
                    start,
                    keys,
                    gd,
                    ef,
                    evs.take(e as int),
                    due,
                ),
                self.dirs.keys() == old(self).dirs.keys(),
                self.git_dirs == old(self).git_dirs,
                self.editor_files == old(self).editor_files,
            decreases events.len() - e,
        {
            let ev = &events[e];
            let ghost ps = ev@.paths;
            let ghost base = progress_of(*self, sent@, refresh@, results@);
            assert(evs.take(e + 1).drop_last() =~= evs.take(e as int));
            assert(evs.take(e + 1).last() == ev@);
            let mut k: usize = 0;
            assert(ps.take(0) =~= Seq::<(Seq<char>, Option<Seq<char>>)>::empty());
            while k < ev.paths.len()
                invariant
                    0 <= k <= ev.paths.len(),
                    ps == ev@.paths,
                    keys == old(self).dirs.keys(),
                    gd == old(self).git_dirs_view(),
                    ef == strings_view(old(self).editor_files@),
                    progress_of(*self, sent@, refresh@, results@) == paths_fold(
                        base,
                        keys,
                        gd,
                        ef,
                        ev.kind,
                        ps.take(k as int),
                        due,
                    ),
                    self.dirs.keys() == old(self).dirs.keys(),
                    self.git_dirs == old(self).git_dirs,
                    self.editor_files == old(self).editor_files,
                decreases ev.paths.len() - k,
            {
                assert(ps.take(k + 1).drop_last() =~= ps.take(k as int));
                assert(ps.take(k + 1).last() == probe_view(ev.paths@[k as int]));
                let (p, c) = &ev.paths[k];
                self.process_path(ev.kind, p.as_str(), c, due, &mut sent, &mut refresh, &mut results);
                k = k + 1;
            }
            assert(ps.take(ev.paths.len() as int) =~= ps);
            e = e + 1;
        }
        assert(evs.take(events.len() as int) =~= evs);
        proof {
            lemma_batch_laws(start.dirs, start.pending, keys, gd, ef, evs, due);
        }
        (results, refresh)
    }
}

// ── Debounced git refreshes ─────────────────────────────────────────────────

/// The directories among `keys` (in order) whose pending refresh has matured
/// at `now`.
pub open spec fn matured(keys: Seq<Seq<char>>, pending: Map<Seq<char>, u64>, now: u64) -> Seq<Seq<char>>
    decreases keys.len(),
{
    if keys.len() == 0 {
        Seq::empty()
    } else {
        matured(keys.drop_last(), pending, now) + (if pending.contains_key(keys.last()) && now
            >= pending[keys.last()] {
            seq![keys.last()]
        } else {
            Seq::empty()
        })
    }
}

/// The pending refreshes that have not matured at `now`.
pub open spec fn unmatured(pending: Map<Seq<char>, u64>, now: u64) -> Map<Seq<char>, u64> {
    Map::new(|k: Seq<char>| pending.contains_key(k) && now < pending[k], |k: Seq<char>| pending[k])
}

/// A directory is among the matured ones exactly when it is among `keys`
/// and its refresh is pending and due.
proof fn lemma_matured_contains(keys: Seq<Seq<char>>, pending: Map<Seq<char>, u64>, now: u64, k: Seq<char>)
    ensures
        matured(keys, pending, now).contains(k) <==> (keys.contains(k) && pending.contains_key(k)
            && now >= pending[k]),
    decreases keys.len(),
{
    if keys.len() > 0 {
        let prev = keys.drop_last();
        lemma_matured_contains(prev, pending, now, k);
        let m = matured(keys, pending, now);
        let mp = matured(prev, pending, now);
        if m.contains(k) {
            let i = choose|i: int| 0 <= i < m.len() && m[i] == k;
            if i >= mp.len() {
                assert(k == keys.last());
                assert(keys[keys.len() - 1] == k);
            } else {
                assert(mp[i] == k);
                let j = choose|j: int| 0 <= j < prev.len() && prev[j] == k;
                assert(keys[j] == k);
            }
        }
        if keys.contains(k) && pending.contains_key(k) && now >= pending[k] {
            let j = choose|j: int| 0 <= j < keys.len() && keys[j] == k;
            if j == keys.len() - 1 {
                assert(m[m.len() - 1] == k);
            } else {
                assert(prev[j] == k);
                assert(mp.contains(k));
                let i = choose|i: int| 0 <= i < mp.len() && mp[i] == k;
                assert(m[i] == k);
            }
        }
    }
}

impl WorkerState {
    /// Takes the git refreshes that have matured at `now`: they leave the
    /// pending table and their directories are returned, in table order.
    pub fn take_matured(&mut self, now: u64) -> (r: Vec<String>)
        ensures
            strings_view(r@) == matured(old(self).pending.keys(), old(self).pending@, now),
            final(self).pending@ == unmatured(old(self).pending@, now),
            final(self).dirs == old(self).dirs,
            final(self).git_dirs == old(self).git_dirs,
            final(self).editor_files == old(self).editor_files,
    {
        let ghost keys = self.pending.keys();
        let ghost p0 = self.pending@;
        proof {
            use_type_invariant(&self.pending);
            self.pending.lemma_keys_are_domain();
        }
        let mut due: Vec<String> = Vec::new();
        let mut i: usize = 0;
        let n = self.pending.len();
        assert(keys.take(0) =~= Seq::<Seq<char>>::empty());
        assert(strings_view(due@) =~= Seq::<Seq<char>>::empty());
        while i < n
            invariant
                0 <= i <= n,
                n == keys.len(),
                keys == self.pending.keys(),
                p0 == self.pending@,
                strings_view(due@) == matured(keys.take(i as int), p0, now),
            decreases n - i,
        {
            assert(keys.take(i + 1).drop_last() =~= keys.take(i as int));
            assert(keys.take(i + 1).last() == keys[i as int]);
            let t = *self.pending.value_at(i);
            if now >= t {
                let k = self.pending.key_at(i).clone();
                due.push(k);
            }
            assert(strings_view(due@) =~= matured(keys.take(i + 1), p0, now));
            i = i + 1;
        }
        assert(keys.take(n as int) =~= keys);
        let ghost dv = strings_view(due@);
        let mut j: usize = 0;
        while j < due.len()
            invariant
                0 <= j <= due.len(),
                dv == strings_view(due@),
                dv == matured(keys, p0, now),
                forall|k: Seq<char>| #[trigger] self.pending@.contains_key(k) <==> (p0.contains_key(k)
                    && !dv.take(j as int).contains(k)),
                forall|k: Seq<char>| #[trigger] self.pending@.contains_key(k) ==> self.pending@[k]
                    == p0[k],
                self.dirs == old(self).dirs,
                self.git_dirs == old(self).git_dirs,
                self.editor_files == old(self).editor_files,
            decreases due.len() - j,
        {
            let ghost before = self.pending@;
            let _ = self.pending.remove(due[j].as_str());
            proof {
                assert forall|k: Seq<char>| #[trigger] self.pending@.contains_key(k) <==> (
                p0.contains_key(k) && !dv.take(j + 1).contains(k)) by {
                    let t0 = dv.take(j as int);
                    let t1 = dv.take(j + 1);
                    if t1.contains(k) {
                        let a = choose|a: int| 0 <= a < t1.len() && t1[a] == k;
                        if a < j {
                            assert(t0[a] == k);
                        } else {
                            assert(k == due@[j as int]@);
                        }
                    }
                    if t0.contains(k) {
                        let a = choose|a: int| 0 <= a < t0.len() && t0[a] == k;
                        assert(t1[a] == k);
                    }
                    if k == due@[j as int]@ {
                        assert(t1[j as int] == k);
                    }
                }
            }
            j = j + 1;
        }
        proof {
            assert(dv.take(due.len() as int) =~= dv);
            assert forall|k: Seq<char>| #[trigger] self.pending@.contains_key(k) <==> unmatured(p0, now).contains_key(k) by {
                lemma_matured_contains(keys, p0, now, k);
            }
            assert(self.pending@ =~= unmatured(p0, now));
        }
        due
    }
}

// ── Which working directories to watch ──────────────────────────────────────

/// The working directories to watch, from the sessions' directories each
/// paired with whether it is a directory on disk: the non-empty ones that are
/// watched already or are directories, each once, in order.
pub open spec fn current_dirs(cwds: Seq<(Seq<char>, bool)>, dirs: Map<Seq<char>, DirWatchView>) -> Seq<Seq<char>>
    decreases cwds.len(),
{
    if cwds.len() == 0 {
        Seq::empty()
    } else {
        let prev = current_dirs(cwds.drop_last(), dirs);
        let c = cwds.last().0;
        if c.len() > 0 && (dirs.contains_key(c) || cwds.last().1) {
            add_unique(prev, c)
        } else {
            prev
        }
    }
}

/// The members of `xs` (in order) that are not in `ys`.
pub open spec fn not_in(xs: Seq<Seq<char>>, ys: Seq<Seq<char>>) -> Seq<Seq<char>>
    decreases xs.len(),
{
    if xs.len() == 0 {
        Seq::empty()
    } else {
        not_in(xs.drop_last(), ys) + (if ys.contains(xs.last()) {
            Seq::empty()
        } else {
            seq![xs.last()]
        })
    }
}

/// The members of `xs` (in order) that are not watched.
pub open spec fn unwatched(xs: Seq<Seq<char>>, dirs: Map<Seq<char>, DirWatchView>) -> Seq<Seq<char>>
    decreases xs.len(),
{
    if xs.len() == 0 {
        Seq::empty()
    } else {
        unwatched(xs.drop_last(), dirs) + (if dirs.contains_key(xs.last()) {
            Seq::empty()
        } else {
            seq![xs.last()]
        })
    }
}

pub open spec fn cwds_view(v: Seq<(String, bool)>) -> Seq<(Seq<char>, bool)> {
    v.map_values(|p: (String, bool)| (p.0@, p.1))
}

pub open spec fn roots_view(v: Seq<(String, Option<String>)>) -> Seq<(Seq<char>, Option<Seq<char>>)> {
    v.map_values(|p: (String, Option<String>)| (p.0@, opt_str_view(p.1)))
}

/// The first key of `keys` (in order) whose `.git` watch belongs to `dir`.
pub open spec fn owned_git_dir(keys: Seq<Seq<char>>, git_dirs: Map<Seq<char>, Seq<char>>, dir: Seq<char>) -> Option<Seq<char>>
    decreases keys.len(),
{
    if keys.len() == 0 {
        None
    } else {
        match owned_git_dir(keys.drop_last(), git_dirs, dir) {
            Some(k) => Some(k),
            None => if git_dirs.contains_key(keys.last()) && git_dirs[keys.last()] == dir {
                Some(keys.last())
            } else {
                None
            },
        }
    }
}

/// The first of the current directories (each with its git root) other than
/// `dir` whose repository's `.git` directory is `gd`.
pub open spec fn heir(current: Seq<(Seq<char>, Option<Seq<char>>)>, dir: Seq<char>, gd: Seq<char>) -> Option<Seq<char>>
    decreases current.len(),
{
    if current.len() == 0 {
        None
    } else {
        match heir(current.drop_last(), dir, gd) {
            Some(h) => Some(h),
            None => {
                let c = current.last();
                if c.0 != dir && c.1 is Some && path_join(c.1->0, ".git"@) == gd {
                    Some(c.0)
                } else {
                    None
                }
            },
        }
    }
}

/// The `.git` watches after `dir` stops being watched: a `.git` watch that
/// belonged to it passes to another current directory of the same
/// repository, or ends.
pub open spec fn git_after_removal(
    git_dirs: Map<Seq<char>, Seq<char>>,
    gkeys: Seq<Seq<char>>,
    dir: Seq<char>,
    current: Seq<(Seq<char>, Option<Seq<char>>)>,
) -> Map<Seq<char>, Seq<char>> {
    match owned_git_dir(gkeys, git_dirs, dir) {
        None => git_dirs,
        Some(gd) => match heir(current, dir, gd) {
            Some(h) => git_dirs.insert(gd, h),
            None => git_dirs.remove(gd),
        },
    }
}

/// The paths to stop watching when `dir` stops being watched: `dir`, then the
/// `.git` directory it watched when no other directory takes it over.
pub open spec fn unwatch_on_removal(
    git_dirs: Map<Seq<char>, Seq<char>>,
    gkeys: Seq<Seq<char>>,
    dir: Seq<char>,
    current: Seq<(Seq<char>, Option<Seq<char>>)>,
) -> Seq<Seq<char>> {
    match owned_git_dir(gkeys, git_dirs, dir) {
        None => seq![dir],
        Some(gd) => match heir(current, dir, gd) {
            Some(_) => seq![dir],
            None => seq![dir, gd],
        },
    }
}

/// What a newly watched directory starts with.
pub open spec fn fresh_watch(root: Option<Seq<char>>) -> DirWatchView {
    DirWatchView { is_git: root is Some, git_root: root, known_md: Set::empty() }
}

impl WorkerState {
    /// Splits a sync request into the directories to watch now, those to stop
    /// watching (in table order) and those to start watching (in order).
    /// `cwds` pairs each session directory with whether it is a directory.
    pub fn plan_sync(&self, cwds: &Vec<(String, bool)>) -> (r: (Vec<String>, Vec<String>, Vec<String>))
        ensures
            strings_view(r.0@) == current_dirs(cwds_view(cwds@), self.dirs_view()),
            strings_view(r.1@) == not_in(self.dirs.keys(), current_dirs(cwds_view(cwds@), self.dirs_view())),
            strings_view(r.2@) == unwatched(current_dirs(cwds_view(cwds@), self.dirs_view()), self.dirs_view()),
    {
        let ghost cv = cwds_view(cwds@);
        let mut current: Vec<String> = Vec::new();
        let mut i: usize = 0;
        assert(cv.take(0) =~= Seq::<(Seq<char>, bool)>::empty());
        assert(strings_view(current@) =~= Seq::<Seq<char>>::empty());
        while i < cwds.len()
            invariant
                0 <= i <= cwds.len(),
                cv == cwds_view(cwds@),
                strings_view(current@) == current_dirs(cv.take(i as int), self.dirs_view()),
            decreases cwds.len() - i,
        {
            assert(cv.take(i + 1).drop_last() =~= cv.take(i as int));
            assert(cv.take(i + 1).last() == (cwds@[i as int].0@, cwds@[i as int].1));
            let c = &cwds[i].0;
            let keep = crate::text::chars_of(c.as_str()).len() > 0 && (self.dirs.contains_key(c.as_str())
                || cwds[i].1);
            if keep {
                add_unique_to(&mut current, c.as_str());
            }
            i = i + 1;
        }
        assert(cv.take(cwds.len() as int) =~= cv);
        let ghost cur = strings_view(current@);
        let ghost keys = self.dirs.keys();
        let mut to_remove: Vec<String> = Vec::new();
        let mut k: usize = 0;
        let n = self.dirs.len();
        assert(keys.take(0) =~= Seq::<Seq<char>>::empty());
        assert(strings_view(to_remove@) =~= Seq::<Seq<char>>::empty());
        while k < n
            invariant
                0 <= k <= n,
                n == keys.len(),
                keys == self.dirs.keys(),
                cur == strings_view(current@),
                strings_view(to_remove@) == not_in(keys.take(k as int), cur),
            decreases n - k,
        {
            assert(keys.take(k + 1).drop_last() =~= keys.take(k as int));
            assert(keys.take(k + 1).last() == keys[k as int]);
            let key = self.dirs.key_at(k);
            if !contains_string(&current, key.as_str()) {
                let ghost before = to_remove@;
                to_remove.push(key.clone());
                assert(strings_view(to_remove@) =~= strings_view(before).push(keys[k as int]));
            }
            assert(strings_view(to_remove@) =~= not_in(keys.take(k + 1), cur));
            k = k + 1;
        }
        assert(keys.take(n as int) =~= keys);
        let mut to_add: Vec<String> = Vec::new();
        let mut j: usize = 0;
        assert(cur.take(0) =~= Seq::<Seq<char>>::empty());
        assert(strings_view(to_add@) =~= Seq::<Seq<char>>::empty());
        while j < current.len()
            invariant
                0 <= j <= current.len(),
                cur == strings_view(current@),
                strings_view(to_add@) == unwatched(cur.take(j as int), self.dirs_view()),
            decreases current.len() - j,
        {
            assert(cur.take(j + 1).drop_last() =~= cur.take(j as int));
            assert(cur.take(j + 1).last() == current@[j as int]@);
            if !self.dirs.contains_key(current[j].as_str()) {
                let ghost before = to_add@;
                to_add.push(current[j].clone());
                assert(strings_view(to_add@) =~= strings_view(before).push(current@[j as int]@));
            }
            assert(strings_view(to_add@) =~= unwatched(cur.take(j + 1), self.dirs_view()));
            j = j + 1;
        }
        assert(cur.take(current.len() as int) =~= cur);
        (current, to_remove, to_add)
    }
}

proof fn lemma_str_map_insert(m: Map<Seq<char>, String>, k: Seq<char>, v: String)
    ensures
        m.insert(k, v).map_values(|x: String| x@) == m.map_values(|x: String| x@).insert(k, v@),
{
    assert(m.insert(k, v).map_values(|x: String| x@) =~= m.map_values(|x: String| x@).insert(k, v@));
}

proof fn lemma_str_map_remove(m: Map<Seq<char>, String>, k: Seq<char>)
    ensures
        m.remove(k).map_values(|x: String| x@) == m.map_values(|x: String| x@).remove(k),
{
    assert(m.remove(k).map_values(|x: String| x@) =~= m.map_values(|x: String| x@).remove(k));
}

proof fn lemma_watch_remove(m: Map<Seq<char>, DirWatch>, k: Seq<char>)
    ensures
        m.remove(k).map_values(|x: DirWatch| x@) == m.map_values(|x: DirWatch| x@).remove(k),
{
    assert(m.remove(k).map_values(|x: DirWatch| x@) =~= m.map_values(|x: DirWatch| x@).remove(k));
}

/// The first current directory other than `dir` whose repository's `.git`
/// directory is `gd`, as `heir`.
fn heir_of(current: &Vec<(String, Option<String>)>, dir: &str, gd: &str) -> (r: Option<String>)
    ensures
        opt_str_view(r) == heir(roots_view(current@), dir@, gd@),
{
    let ghost cv = roots_view(current@);
    let mut found: Option<String> = None;
    let mut i: usize = 0;
    assert(cv.take(0) =~= Seq::<(Seq<char>, Option<Seq<char>>)>::empty());
    while i < current.len()
        invariant
            0 <= i <= current.len(),
            cv == roots_view(current@),
            opt_str_view(found) == heir(cv.take(i as int), dir@, gd@),
        decreases current.len() - i,
    {
        assert(cv.take(i + 1).drop_last() =~= cv.take(i as int));
        assert(cv.take(i + 1).last() == (current@[i as int].0@, opt_str_view(current@[i as int].1)));
        if found.is_none() && !str_eq(current[i].0.as_str(), dir) {
            let shares = match &current[i].1 {
                Some(rt) => {
                    let g = join_path(rt.as_str(), ".git");
                    str_eq(g.as_str(), gd)
                },
                None => false,
            };
            if shares {
                found = Some(current[i].0.clone());
            }
        }
        i = i + 1;
    }
    assert(cv.take(current.len() as int) =~= cv);
    found
}

impl WorkerState {
    /// The `.git` directory whose watch belongs to `dir`, as `owned_git_dir`.
    fn owned_git_dir_of(&self, dir: &str) -> (r: Option<String>)
        ensures
            opt_str_view(r) == owned_git_dir(self.git_dirs.keys(), self.git_dirs_view(), dir@),
    {
        let ghost keys = self.git_dirs.keys();
        let mut found: Option<String> = None;
        let mut i: usize = 0;
        let n = self.git_dirs.len();
        assert(keys.take(0) =~= Seq::<Seq<char>>::empty());
        while i < n
            invariant
                0 <= i <= n,
                n == keys.len(),
                keys == self.git_dirs.keys(),
                opt_str_view(found) == owned_git_dir(keys.take(i as int), self.git_dirs_view(), dir@),
            decreases n - i,
        {
            assert(keys.take(i + 1).drop_last() =~= keys.take(i as int));
            assert(keys.take(i + 1).last() == keys[i as int]);
            if found.is_none() && str_eq(self.git_dirs.value_at(i).as_str(), dir) {
                found = Some(self.git_dirs.key_at(i).clone());
            }
            i = i + 1;
        }
        assert(keys.take(n as int) =~= keys);
        found
    }

    /// Stops watching `dir`, given the directories to watch now, each with its
    /// git root: returns the paths whose watch ends (`dir`, then its `.git`
    /// directory when no other directory takes that watch over) and the
    /// result that reports the removal.
    pub fn remove_dir(&mut self, dir: &str, current: &Vec<(String, Option<String>)>) -> (r: (
        Vec<String>,
        WatchResult,
    ))
        ensures
            strings_view(r.0@) == unwatch_on_removal(
                old(self).git_dirs_view(),
                old(self).git_dirs.keys(),
                dir@,
                roots_view(current@),
            ),
            r.1@ == WatchResultView::DirRemoved(dir@),
            final(self).dirs_view() == old(self).dirs_view().remove(dir@),
            final(self).git_dirs_view() == git_after_removal(
                old(self).git_dirs_view(),
                old(self).git_dirs.keys(),
                dir@,
                roots_view(current@),
            ),
            final(self).pending == old(self).pending,
            final(self).editor_files == old(self).editor_files,
    {
        let ghost g0 = self.git_dirs@;
        let first = dir.to_string();
        let mut unwatch: Vec<String> = Vec::new();
        unwatch.push(first);
        assert(strings_view(unwatch@) =~= seq![dir@]);
        match self.owned_git_dir_of(dir) {
            Some(gd) => match heir_of(current, dir, gd.as_str()) {
                Some(h) => {
                    let ghost hv = h;
                    self.git_dirs.insert(gd, h);
                    proof {
                        lemma_str_map_insert(g0, gd@, hv);
                    }
                },
                None => {
                    let ghost before = unwatch@;
                    unwatch.push(gd.clone());
                    assert(strings_view(unwatch@) =~= seq![dir@, gd@]);
                    let _ = self.git_dirs.remove(gd.as_str());
                    proof {
                        lemma_str_map_remove(g0, gd@);
                    }
                },
            },
            None => {},
        }
        let ghost d0 = self.dirs@;
        let _ = self.dirs.remove(dir);
        proof {
            lemma_watch_remove(d0, dir@);
        }
        (unwatch, WatchResult::DirRemoved(dir.to_string()))
    }

    /// The `.git` directory of a new directory's repository to watch: the
    /// git root joined with `.git`, unless that directory is watched already.
    pub fn git_watch_candidate(&self, root: Option<&str>) -> (r: Option<String>)
        ensures
            match root {
                None => r is None,
                Some(rt) => if self.git_dirs_view().contains_key(path_join(rt@, ".git"@)) {
                    r is None
                } else {
                    r matches Some(g) && g@ == path_join(rt@, ".git"@)
                },
            },
    {
        match root {
            None => None,
            Some(rt) => {
                let gd = join_path(rt, ".git");
                if self.git_dirs.contains_key(gd.as_str()) {
                    None
                } else {
                    Some(gd)
                }
            },
        }
    }

    /// Records a directory that is now watched, with its git root and the
    /// `.git` directory whose watch was started for it, if any.
    pub fn record_added(&mut self, dir: &str, root: Option<String>, watched_git_dir: Option<String>)
        ensures
            final(self).dirs_view() == old(self).dirs_view().insert(dir@, fresh_watch(opt_str_view(root))),
            final(self).git_dirs_view() == match watched_git_dir {
                Some(g) => old(self).git_dirs_view().insert(g@, dir@),
                None => old(self).git_dirs_view(),
            },
            final(self).pending == old(self).pending,
            final(self).editor_files == old(self).editor_files,
    {
        let ghost d0 = self.dirs@;
        let ghost g0 = self.git_dirs@;
        let is_git = root.is_some();
        let w = DirWatch { is_git, git_root: root, known_md: PathMap::new() };
        let ghost wv = w;
        self.dirs.insert(dir.to_string(), w);
        proof {
            lemma_watch_insert(d0, dir@, wv);
            assert(wv.known_md@.dom() =~= Set::<Seq<char>>::empty());
        }
        if let Some(g) = watched_git_dir {
            let owner = dir.to_string();
            let ghost ov = owner;
            self.git_dirs.insert(g, owner);
            proof {
                lemma_str_map_insert(g0, g@, ov);
            }
        }
    }
}

// ── What every batch keeps ──────────────────────────────────────────────────

/// No editor file is reported modified twice.
pub open spec fn modified_once(results: Seq<WatchResultView>) -> bool {
    forall|i: int, j: int|
        0 <= i < j < results.len() && #[trigger] results[i] is FileModified ==> #[trigger] results[j]
            != results[i]
}

/// What holds throughout a batch: every editor file reported is among those
/// sent, none is reported twice, and no directory is listed twice.
pub open spec fn batch_inv(g: Progress) -> bool {
    &&& forall|i: int|
        0 <= i < g.results.len() && #[trigger] g.results[i] is FileModified ==> g.sent.contains(
            g.results[i]->FileModified_0,
        )
    &&& modified_once(g.results)
    &&& g.refresh.no_duplicates()
}

/// From `g` to `g2` the watched directories stay (with their git data), a
/// pending refresh keeps its time, and a new one is for a git directory and
/// due at `due`.
pub open spec fn keeps(g: Progress, g2: Progress, due: u64) -> bool {
    &&& forall|k: Seq<char>| #[trigger] g2.dirs.contains_key(k) <==> g.dirs.contains_key(k)
    &&& forall|k: Seq<char>|
        #[trigger] g.dirs.contains_key(k) ==> g2.dirs[k].is_git == g.dirs[k].is_git
            && g2.dirs[k].git_root == g.dirs[k].git_root
    &&& forall|k: Seq<char>|
        #[trigger] g.pending.contains_key(k) ==> g2.pending.contains_key(k) && g2.pending[k]
            == g.pending[k]
    &&& forall|k: Seq<char>|
        #[trigger] g2.pending.contains_key(k) && !g.pending.contains_key(k) ==> g2.pending[k] == due
            && g.dirs.contains_key(k) && g.dirs[k].is_git
}

proof fn lemma_keeps_trans(a: Progress, b: Progress, c: Progress, due: u64)
    requires
        keeps(a, b, due),
        keeps(b, c, due),
    ensures
        keeps(a, c, due),
{
    assert forall|k: Seq<char>| #[trigger] c.pending.contains_key(k) && !a.pending.contains_key(k)
        implies c.pending[k] == due && a.dirs.contains_key(k) && a.dirs[k].is_git by {
        if b.pending.contains_key(k) {
            assert(b.pending[k] == due && a.dirs.contains_key(k) && a.dirs[k].is_git);
        } else {
            assert(b.dirs.contains_key(k) && b.dirs[k].is_git);
        }
    }
    assert forall|k: Seq<char>| #[trigger] a.dirs.contains_key(k) implies c.dirs[k].is_git
        == a.dirs[k].is_git && c.dirs[k].git_root == a.dirs[k].git_root by {
        assert(b.dirs.contains_key(k));
    }
}

proof fn lemma_add_unique(s: Seq<Seq<char>>, x: Seq<char>)
    requires
        s.no_duplicates(),
    ensures
        add_unique(s, x).no_duplicates(),
{
    if !s.contains(x) {
        let t = s.push(x);
        assert forall|a: int, b: int| 0 <= a < t.len() && 0 <= b < t.len() && a != b implies t[a]
            != t[b] by {
            if a < s.len() && b < s.len() {
                assert(t[a] == s[a] && t[b] == s[b]);
            } else if a < s.len() {
                assert(t[a] == s[a]);
            } else {
                assert(t[b] == s[b]);
            }
        }
    }
}

proof fn lemma_push_not_modified(g: Progress, r: WatchResultView)
    requires
        batch_inv(g),
        !(r is FileModified),
    ensures
        batch_inv(Progress { results: g.results.push(r), ..g }),
{
    let t = g.results.push(r);
    assert forall|i: int| 0 <= i < t.len() && #[trigger] t[i] is FileModified implies g.sent.contains(
        t[i]->FileModified_0,
    ) by {
        assert(i < g.results.len());
        assert(t[i] == g.results[i]);
    }
    assert forall|i: int, j: int| 0 <= i < j < t.len() && #[trigger] t[i] is FileModified implies #[trigger] t[j]
        != t[i] by {
        assert(t[i] == g.results[i]);
        if j < g.results.len() {
            assert(t[j] == g.results[j]);
        }
    }
}

proof fn lemma_dir_step(
    g: Progress,
    kind: FsEventKind,
    path: Seq<char>,
    md: bool,
    content: Option<Seq<char>>,
    dir: Seq<char>,
    due: u64,
)
    requires
        batch_inv(g),
    ensures
        batch_inv(dir_step(g, kind, path, md, content, dir, due)),
        keeps(g, dir_step(g, kind, path, md, content, dir, due), due),
{
    let g2 = dir_step(g, kind, path, md, content, dir, due);
    if g.dirs.contains_key(dir) {
        let d = g.dirs[dir];
        lemma_add_unique(g.refresh, dir);
        match kind {
            FsEventKind::Create => {
                if md && content is Some {
                    lemma_push_not_modified(g, WatchResultView::MdCreated { dir, path, content: content->0 });
                }
            },
            FsEventKind::Modify => {
                if md && content is Some && d.known_md.contains(path) {
                    lemma_push_not_modified(g, WatchResultView::MdCreated { dir, path, content: content->0 });
                }
            },
            FsEventKind::Remove => {
                if d.known_md.contains(path) {
                    lemma_push_not_modified(g, WatchResultView::MdRemoved { dir, path });
                }
            },
            FsEventKind::Other => {},
        }
    }
}

proof fn lemma_dirs_fold(
    g: Progress,
    kind: FsEventKind,
    path: Seq<char>,
    md: bool,
    content: Option<Seq<char>>,
    ds: Seq<Seq<char>>,
    due: u64,
)
    requires
        batch_inv(g),
    ensures
        batch_inv(dirs_fold(g, kind, path, md, content, ds, due)),
        keeps(g, dirs_fold(g, kind, path, md, content, ds, due), due),
    decreases ds.len(),
{
    if ds.len() > 0 {
        let mid = dirs_fold(g, kind, path, md, content, ds.drop_last(), due);
        lemma_dirs_fold(g, kind, path, md, content, ds.drop_last(), due);
        lemma_dir_step(mid, kind, path, md, content, ds.last(), due);
        lemma_keeps_trans(g, mid, dirs_fold(g, kind, path, md, content, ds, due), due);
    }
}

proof fn lemma_path_step(
    g: Progress,
    keys: Seq<Seq<char>>,
    git_dirs: Map<Seq<char>, Seq<char>>,
    editor_files: Seq<Seq<char>>,
    kind: FsEventKind,
    path: Seq<char>,
    content: Option<Seq<char>>,
    due: u64,
)
    requires
        batch_inv(g),
    ensures
        batch_inv(path_step(g, keys, git_dirs, editor_files, kind, path, content, due)),
        keeps(g, path_step(g, keys, git_dirs, editor_files, kind, path, content, due), due),
{
    let g1 = if (kind == FsEventKind::Create || kind == FsEventKind::Modify) && editor_files.contains(path)
        && !g.sent.contains(path) {
        Progress { sent: g.sent.push(path), results: g.results.push(WatchResultView::FileModified(path)), ..g }
    } else {
        g
    };
    if (kind == FsEventKind::Create || kind == FsEventKind::Modify) && editor_files.contains(path)
        && !g.sent.contains(path) {
        let t = g1.results;
        let n = g.results.len();
        assert(g1.sent[g.sent.len() as int] == path);
        assert forall|i: int| 0 <= i < t.len() && #[trigger] t[i] is FileModified implies g1.sent.contains(
            t[i]->FileModified_0,
        ) by {
            if i < n {
                assert(t[i] == g.results[i]);
                let a = choose|a: int| 0 <= a < g.sent.len() && g.sent[a] == t[i]->FileModified_0;
                assert(g1.sent[a] == g.sent[a]);
            }
        }
        assert forall|i: int, j: int| 0 <= i < j < t.len() && #[trigger] t[i] is FileModified implies #[trigger] t[j]
            != t[i] by {
            assert(t[i] == g.results[i]);
            if j < n {
                assert(t[j] == g.results[j]);
            } else {
                assert(g.sent.contains(g.results[i]->FileModified_0));
            }
        }
    }
    assert(batch_inv(g1));
    assert(keeps(g, g1, due));
    match event_dirs(keys, g1.dirs, git_dirs, path) {
        None => {},
        Some(ds) => {
            lemma_dirs_fold(g1, kind, path, is_md(path), content, ds, due);
            lemma_keeps_trans(g, g1, dirs_fold(g1, kind, path, is_md(path), content, ds, due), due);
        },
    }
}

proof fn lemma_paths_fold(
    g: Progress,
    keys: Seq<Seq<char>>,
    git_dirs: Map<Seq<char>, Seq<char>>,
    editor_files: Seq<Seq<char>>,
    kind: FsEventKind,
    paths: Seq<(Seq<char>, Option<Seq<char>>)>,
    due: u64,
)
    requires
        batch_inv(g),
    ensures
        batch_inv(paths_fold(g, keys, git_dirs, editor_files, kind, paths, due)),
        keeps(g, paths_fold(g, keys, git_dirs, editor_files, kind, paths, due), due),
    decreases paths.len(),
{
    if paths.len() > 0 {
        let mid = paths_fold(g, keys, git_dirs, editor_files, kind, paths.drop_last(), due);
        lemma_paths_fold(g, keys, git_dirs, editor_files, kind, paths.drop_last(), due);
        lemma_path_step(mid, keys, git_dirs, editor_files, kind, paths.last().0, paths.last().1, due);
        lemma_keeps_trans(g, mid, paths_fold(g, keys, git_dirs, editor_files, kind, paths, due), due);
    }
}

proof fn lemma_events_fold(
    g: Progress,
    keys: Seq<Seq<char>>,
    git_dirs: Map<Seq<char>, Seq<char>>,
    editor_files: Seq<Seq<char>>,
    evs: Seq<FsEventView>,
    due: u64,
)
    requires
        batch_inv(g),
    ensures
        batch_inv(events_fold(g, keys, git_dirs, editor_files, evs, due)),
        keeps(g, events_fold(g, keys, git_dirs, editor_files, evs, due), due),
    decreases evs.len(),
{
    if evs.len() > 0 {
        let mid = events_fold(g, keys, git_dirs, editor_files, evs.drop_last(), due);
        lemma_events_fold(g, keys, git_dirs, editor_files, evs.drop_last(), due);
        lemma_paths_fold(mid, keys, git_dirs, editor_files, evs.last().kind, evs.last().paths, due);
        lemma_keeps_trans(g, mid, events_fold(g, keys, git_dirs, editor_files, evs, due), due);
    }
}

/// A batch of events lists each directory at most once, reports each editor
/// file at most once, never changes which directories are watched nor their
/// git data, never moves a pending git refresh, and schedules new ones only
/// for git directories, due `debounce` after the batch's time.
pub proof fn lemma_batch_laws(
    dirs: Map<Seq<char>, DirWatchView>,
    pending: Map<Seq<char>, u64>,
    keys: Seq<Seq<char>>,
    git_dirs: Map<Seq<char>, Seq<char>>,
    editor_files: Seq<Seq<char>>,
    evs: Seq<FsEventView>,
    due: u64,
)
    ensures
        ({
            let g = events_fold(batch_start(dirs, pending), keys, git_dirs, editor_files, evs, due);
            &&& g.refresh.no_duplicates()
            &&& modified_once(g.results)
            &&& keeps(batch_start(dirs, pending), g, due)
        }),
{
    let s = batch_start(dirs, pending);
    assert(batch_inv(s));
    lemma_events_fold(s, keys, git_dirs, editor_files, evs, due);
}

// ── What a sync promises ───────────────────────────────────────────────────

proof fn lemma_seq_push_contains(s: Seq<Seq<char>>, t: Seq<Seq<char>>, k: Seq<char>)
    ensures
        (s + t).contains(k) <==> (s.contains(k) || t.contains(k)),
{
    let u = s + t;
    if u.contains(k) {
        let i = choose|i: int| 0 <= i < u.len() && u[i] == k;
        if i < s.len() {
            assert(s[i] == k);
        } else {
            assert(t[i - s.len()] == k);
        }
    }
    if s.contains(k) {
        let i = choose|i: int| 0 <= i < s.len() && s[i] == k;
        assert(u[i] == k);
    }
    if t.contains(k) {
        let i = choose|i: int| 0 <= i < t.len() && t[i] == k;
        assert(u[s.len() + i] == k);
    }
}

proof fn lemma_last_contains(xs: Seq<Seq<char>>, k: Seq<char>)
    requires
        xs.len() > 0,
    ensures
        xs.contains(k) <==> (xs.drop_last().contains(k) || xs.last() == k),
{
    assert(xs =~= xs.drop_last() + seq![xs.last()]);
    lemma_seq_push_contains(xs.drop_last(), seq![xs.last()], k);
    assert(seq![xs.last()].contains(k) <==> xs.last() == k) by {
        if xs.last() == k {
            assert(seq![xs.last()][0] == k);
        }
    }
}

proof fn lemma_not_in_contains(xs: Seq<Seq<char>>, ys: Seq<Seq<char>>, k: Seq<char>)
    ensures
        not_in(xs, ys).contains(k) <==> (xs.contains(k) && !ys.contains(k)),
    decreases xs.len(),
{
    if xs.len() == 0 {
        assert(!not_in(xs, ys).contains(k));
    } else {
        lemma_not_in_contains(xs.drop_last(), ys, k);
        lemma_last_contains(xs, k);
        let tail: Seq<Seq<char>> = if ys.contains(xs.last()) {
            Seq::empty()
        } else {
            seq![xs.last()]
        };
        lemma_seq_push_contains(not_in(xs.drop_last(), ys), tail, k);
        if tail.contains(k) {
            assert(tail[0] == k);
        }
        if !ys.contains(xs.last()) && xs.last() == k {
            assert(tail[0] == k);
        }
    }
}

proof fn lemma_unwatched_contains(xs: Seq<Seq<char>>, dirs: Map<Seq<char>, DirWatchView>, k: Seq<char>)
    ensures
        unwatched(xs, dirs).contains(k) <==> (xs.contains(k) && !dirs.contains_key(k)),
    decreases xs.len(),
{
    if xs.len() == 0 {
        assert(!unwatched(xs, dirs).contains(k));
    } else {
        lemma_unwatched_contains(xs.drop_last(), dirs, k);
        lemma_last_contains(xs, k);
        let tail: Seq<Seq<char>> = if dirs.contains_key(xs.last()) {
            Seq::empty()
        } else {
            seq![xs.last()]
        };
        lemma_seq_push_contains(unwatched(xs.drop_last(), dirs), tail, k);
        if tail.contains(k) {
            assert(tail[0] == k);
        }
        if !dirs.contains_key(xs.last()) && xs.last() == k {
            assert(tail[0] == k);
        }
    }
}

proof fn lemma_current_no_dups(cwds: Seq<(Seq<char>, bool)>, dirs: Map<Seq<char>, DirWatchView>)
    ensures
        current_dirs(cwds, dirs).no_duplicates(),
    decreases cwds.len(),
{
    if cwds.len() > 0 {
        lemma_current_no_dups(cwds.drop_last(), dirs);
        lemma_add_unique(current_dirs(cwds.drop_last(), dirs), cwds.last().0);
    }
}

/// A sync plan stops watching exactly the watched directories that are not
/// current and starts watching exactly the current ones that are not watched,
/// each once; so once those watches are made, the watched directories are the
/// current ones.
pub proof fn lemma_sync_converges(
    cwds: Seq<(Seq<char>, bool)>,
    dirs: Map<Seq<char>, DirWatchView>,
    keys: Seq<Seq<char>>,
)
    requires
        forall|k: Seq<char>| #[trigger] dirs.contains_key(k) <==> keys.contains(k),
    ensures
        ({
            let cur = current_dirs(cwds, dirs);
            let to_remove = not_in(keys, cur);
            let to_add = unwatched(cur, dirs);
            &&& cur.no_duplicates()
            &&& forall|k: Seq<char>| #[trigger] to_remove.contains(k) <==> (dirs.contains_key(k) && !cur.contains(k))
            &&& forall|k: Seq<char>| #[trigger] to_add.contains(k) <==> (cur.contains(k) && !dirs.contains_key(k))
            &&& forall|k: Seq<char>|
                ((dirs.contains_key(k) && !to_remove.contains(k)) || to_add.contains(k)) <==> #[trigger] cur.contains(k)
        }),
{
    let cur = current_dirs(cwds, dirs);
    lemma_current_no_dups(cwds, dirs);
    assert forall|k: Seq<char>| #[trigger] not_in(keys, cur).contains(k) <==> (dirs.contains_key(k)
        && !cur.contains(k)) by {
        lemma_not_in_contains(keys, cur, k);
    }
    assert forall|k: Seq<char>| #[trigger] unwatched(cur, dirs).contains(k) <==> (cur.contains(k)
        && !dirs.contains_key(k)) by {
        lemma_unwatched_contains(cur, dirs, k);
    }
    assert forall|k: Seq<char>|
        ((dirs.contains_key(k) && !not_in(keys, cur).contains(k)) || unwatched(cur, dirs).contains(k))
            <==> #[trigger] cur.contains(k) by {
        lemma_not_in_contains(keys, cur, k);
        lemma_unwatched_contains(cur, dirs, k);
    }
}

proof fn lemma_current_contains(cwds: Seq<(Seq<char>, bool)>, dirs: Map<Seq<char>, DirWatchView>, k: Seq<char>)
    ensures
        current_dirs(cwds, dirs).contains(k) <==> exists|i: int|
            0 <= i < cwds.len() && #[trigger] cwds[i].0 == k && k.len() > 0 && (dirs.contains_key(k)
                || cwds[i].1),
    decreases cwds.len(),
{
    if cwds.len() == 0 {
        assert(!current_dirs(cwds, dirs).contains(k));
    } else {
        let prev = cwds.drop_last();
        lemma_current_contains(prev, dirs, k);
        let p = current_dirs(prev, dirs);
        let c = cwds.last().0;
        let kept = c.len() > 0 && (dirs.contains_key(c) || cwds.last().1);
        if kept && !p.contains(c) {
            lemma_last_contains(p.push(c), k);
            assert(p.push(c).drop_last() =~= p);
        }
        if exists|i: int|
            0 <= i < cwds.len() && #[trigger] cwds[i].0 == k && k.len() > 0 && (dirs.contains_key(k)
                || cwds[i].1) {
            let i = choose|i: int|
                0 <= i < cwds.len() && #[trigger] cwds[i].0 == k && k.len() > 0 && (dirs.contains_key(
                    k,
                ) || cwds[i].1);
            if i < cwds.len() - 1 {
                assert(prev[i] == cwds[i]);
            }
        }
        if p.contains(k) {
            let i = choose|i: int|
                0 <= i < prev.len() && #[trigger] prev[i].0 == k && k.len() > 0 && (dirs.contains_key(
                    k,
                ) || prev[i].1);
            assert(cwds[i] == prev[i]);
        }
    }
}

/// A directory is current exactly when some session has it (non-empty) and it
/// is watched already or is a directory on disk; in particular a sync never
/// stops watching a directory that a session still has, even when it does not
/// look like a directory for a moment.
pub proof fn lemma_sync_keeps_session_dirs(
    cwds: Seq<(Seq<char>, bool)>,
    dirs: Map<Seq<char>, DirWatchView>,
    keys: Seq<Seq<char>>,
    i: int,
)
    requires
        0 <= i < cwds.len(),
        cwds[i].0.len() > 0,
        dirs.contains_key(cwds[i].0),
    ensures
        current_dirs(cwds, dirs).contains(cwds[i].0),
        !not_in(keys, current_dirs(cwds, dirs)).contains(cwds[i].0),
{
    lemma_current_contains(cwds, dirs, cwds[i].0);
    lemma_not_in_contains(keys, current_dirs(cwds, dirs), cwds[i].0);
}

/// When a directory stops being watched, the `.git` watch that belonged to it
/// either passes to another current directory of the same repository or ends
/// (and is then among the paths to unwatch).
pub proof fn lemma_removal_passes_git_watch(
    git_dirs: Map<Seq<char>, Seq<char>>,
    gkeys: Seq<Seq<char>>,
    dir: Seq<char>,
    current: Seq<(Seq<char>, Option<Seq<char>>)>,
    gd: Seq<char>,
)
    requires
        owned_git_dir(gkeys, git_dirs, dir) == Some(gd),
    ensures
        git_after_removal(git_dirs, gkeys, dir, current).contains_key(gd) ==> {
            let h = git_after_removal(git_dirs, gkeys, dir, current)[gd];
            &&& h != dir
            &&& heir(current, dir, gd) == Some(h)
        },
        !git_after_removal(git_dirs, gkeys, dir, current).contains_key(gd) ==> unwatch_on_removal(
            git_dirs,
            gkeys,
            dir,
            current,
        ) == seq![dir, gd],
{
    lemma_heir_not_dir(current, dir, gd);
}

proof fn lemma_heir_not_dir(current: Seq<(Seq<char>, Option<Seq<char>>)>, dir: Seq<char>, gd: Seq<char>)
    ensures
        heir(current, dir, gd) matches Some(h) ==> h != dir,
    decreases current.len(),
{
    if current.len() > 0 {
        lemma_heir_not_dir(current.drop_last(), dir, gd);
    }
}

/// Matured refreshes are taken once: right after a take at `now`, nothing
/// more has matured at `now`.
pub proof fn lemma_take_matured_once(keys: Seq<Seq<char>>, pending: Map<Seq<char>, u64>, now: u64)
    ensures
        matured(keys, unmatured(pending, now), now) == Seq::<Seq<char>>::empty(),
    decreases keys.len(),
{
    if keys.len() > 0 {
        lemma_take_matured_once(keys.drop_last(), pending, now);
        assert(matured(keys, unmatured(pending, now), now) =~= Seq::<Seq<char>>::empty());
    }
}

} // verus!
