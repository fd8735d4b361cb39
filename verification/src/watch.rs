//! The interface-side state of the directory watcher: what is known of each
//! watched directory, updated from the results the watcher thread sends.
use std::sync::mpsc::{Receiver, Sender};
use std::time::Instant;

use vstd::prelude::*;

use crate::path_map::PathMap;

verus! {

#[verifier::external_type_specification]
#[verifier::external_body]
#[verifier::reject_recursive_types(T)]
pub struct ExSender<T>(Sender<T>);

#[verifier::external_type_specification]
#[verifier::external_body]
#[verifier::reject_recursive_types(T)]
pub struct ExReceiver<T>(Receiver<T>);

/// Calls `std::sync::mpsc::channel`; nothing is claimed of the two ends.
#[verifier::external_body]
fn channel<T>() -> (Sender<T>, Receiver<T>) {
    std::sync::mpsc::channel()
}

/// Calls `Sender::send`, ignoring a disconnected receiver; nothing is claimed.
#[verifier::external_body]
fn send_command(tx: &Sender<WatchCommand>, cmd: WatchCommand) {
    let _ = tx.send(cmd);
}

/// Calls `Receiver::try_iter` and collects what is waiting; what comes back
/// depends on the other thread, so nothing is claimed of it.
#[verifier::external_body]
fn receive_pending(rx: &Receiver<WatchResult>) -> Vec<WatchResult> {
    rx.try_iter().collect()
}

/// Calls `Instant::now`; nothing is claimed of the instant.
#[verifier::external_body]
fn clock_start() -> Instant {
    Instant::now()
}

/// Calls `Instant::elapsed` and gives it in whole milliseconds; it depends on
/// the time, so nothing is claimed of it.
#[verifier::external_body]
fn millis_since(t: &Instant) -> u64 {
    t.elapsed().as_millis() as u64
}

/// A merge-like git operation in progress in a repository.
#[derive(Clone, Copy, Debug, PartialEq, Eq, Structural)]
pub enum MergeOperation {
    NoOperation,
    Merge,
    Rebase,
    CherryPick,
    Revert,
}

/// What is known of one watched directory.
pub struct DirData {
    pub is_git: bool,
    pub git_diff: String,
    pub git_status: String,
    /// Unpushed commits as (hash, subject).
    pub git_unpushed: Vec<(String, String)>,
    /// When a git refresh becomes due, in milliseconds of the watch state's clock.
    pub git_refresh_at: Option<u64>,
    pub merge_operation: MergeOperation,
    /// Markdown files of the directory: path to content.
    pub md_files: PathMap<String>,
    /// The directory's entries.
    pub dir_entries: Vec<String>,
}

/// A watched directory's data as plain values.
pub struct DirDataView {
    pub is_git: bool,
    pub git_diff: Seq<char>,
    pub git_status: Seq<char>,
    pub git_unpushed: Seq<(Seq<char>, Seq<char>)>,
    pub git_refresh_at: Option<u64>,
    pub merge_operation: MergeOperation,
    pub md_files: Map<Seq<char>, Seq<char>>,
    pub dir_entries: Seq<Seq<char>>,
}

pub open spec fn pairs_view(v: Seq<(String, String)>) -> Seq<(Seq<char>, Seq<char>)> {
    v.map_values(|p: (String, String)| (p.0@, p.1@))
}

pub open spec fn results_view(v: Seq<WatchResult>) -> Seq<WatchResultView> {
    v.map_values(|x: WatchResult| x@)
}

pub open spec fn strings_view(v: Seq<String>) -> Seq<Seq<char>> {
    v.map_values(|s: String| s@)
}

impl View for DirData {
    type V = DirDataView;

    open spec fn view(&self) -> DirDataView {
        DirDataView {
            is_git: self.is_git,
            git_diff: self.git_diff@,
            git_status: self.git_status@,
            git_unpushed: pairs_view(self.git_unpushed@),
            git_refresh_at: self.git_refresh_at,
            merge_operation: self.merge_operation,
            md_files: self.md_files@.map_values(|s: String| s@),
            dir_entries: strings_view(self.dir_entries@),
        }
    }
}

/// A result the watcher thread sends to the interface.
pub enum WatchResult {
    /// A directory was added to the watch set.
    DirAdded { path: String, data: DirData },
    /// A directory was removed from the watch set.
    DirRemoved(String),
    /// A directory's entries were listed again.
    DirEntriesRefreshed { dir: String, entries: Vec<String> },
    /// A markdown file was created or modified.
    MdCreated { dir: String, path: String, content: String },
    /// A markdown file was removed.
    MdRemoved { dir: String, path: String },
    /// A file open in an editor was modified on disk.
    FileModified(String),
    /// A directory needs a git refresh.
    GitRefreshNeeded(String),
}

/// A watcher result as plain values.
pub enum WatchResultView {
    DirAdded { path: Seq<char>, data: DirDataView },
    DirRemoved(Seq<char>),
    DirEntriesRefreshed { dir: Seq<char>, entries: Seq<Seq<char>> },
    MdCreated { dir: Seq<char>, path: Seq<char>, content: Seq<char> },
    MdRemoved { dir: Seq<char>, path: Seq<char> },
    FileModified(Seq<char>),
    GitRefreshNeeded(Seq<char>),
}

impl View for WatchResult {
    type V = WatchResultView;

    open spec fn view(&self) -> WatchResultView {
        match self {
            WatchResult::DirAdded { path, data } => WatchResultView::DirAdded {
                path: path@,
                data: data@,
            },
            WatchResult::DirRemoved(p) => WatchResultView::DirRemoved(p@),
            WatchResult::DirEntriesRefreshed { dir, entries } =>
                WatchResultView::DirEntriesRefreshed { dir: dir@, entries: strings_view(entries@) },
            WatchResult::MdCreated { dir, path, content } => WatchResultView::MdCreated {
                dir: dir@,
                path: path@,
                content: content@,
            },
            WatchResult::MdRemoved { dir, path } => WatchResultView::MdRemoved {
                dir: dir@,
                path: path@,
            },
            WatchResult::FileModified(p) => WatchResultView::FileModified(p@),
            WatchResult::GitRefreshNeeded(p) => WatchResultView::GitRefreshNeeded(p@),
        }
    }
}

/// A command the interface sends to the watcher thread.
pub enum WatchCommand {
    /// The working directories to watch.
    SyncCwds(Vec<String>),
    /// A git refresh result for a directory.
    ApplyGitResult { dir: String, diff: String, status: String },
    /// The unpushed commits of a directory.
    ApplyUnpushedResult { dir: String, commits: Vec<(String, String)> },
    /// The files open in editors.
    SyncEditorFiles(Vec<String>),
    /// Stop the watcher thread.
    Shutdown,
}

/// A command as plain values.
pub enum WatchCommandView {
    SyncCwds(Seq<Seq<char>>),
    ApplyGitResult { dir: Seq<char>, diff: Seq<char>, status: Seq<char> },
    ApplyUnpushedResult { dir: Seq<char>, commits: Seq<(Seq<char>, Seq<char>)> },
    SyncEditorFiles(Seq<Seq<char>>),
    Shutdown,
}

impl View for WatchCommand {
    type V = WatchCommandView;

    open spec fn view(&self) -> WatchCommandView {
        match self {
            WatchCommand::SyncCwds(v) => WatchCommandView::SyncCwds(strings_view(v@)),
            WatchCommand::ApplyGitResult { dir, diff, status } => WatchCommandView::ApplyGitResult {
                dir: dir@,
                diff: diff@,
                status: status@,
            },
            WatchCommand::ApplyUnpushedResult { dir, commits } =>
                WatchCommandView::ApplyUnpushedResult { dir: dir@, commits: pairs_view(commits@) },
            WatchCommand::SyncEditorFiles(v) => WatchCommandView::SyncEditorFiles(strings_view(v@)),
            WatchCommand::Shutdown => WatchCommandView::Shutdown,
        }
    }
}

// ── The effect of results on the directory table ────────────────────────────

/// Fresh data for a directory that keeps the git data already known of it.
pub open spec fn keep_git_data(fresh: DirDataView, existing: DirDataView) -> DirDataView {
    DirDataView {
        git_diff: existing.git_diff,
        git_status: existing.git_status,
        git_unpushed: existing.git_unpushed,
        merge_operation: existing.merge_operation,
        ..fresh
    }
}

/// The directory table after one result.
pub open spec fn apply_result(m: Map<Seq<char>, DirDataView>, r: WatchResultView) -> Map<
    Seq<char>,
    DirDataView,
> {
    match r {
        WatchResultView::DirAdded { path, data } => if m.contains_key(path) {
            m.insert(path, keep_git_data(data, m[path]))
        } else {
            m.insert(path, data)
        },
        WatchResultView::DirRemoved(p) => m.remove(p),
        WatchResultView::DirEntriesRefreshed { dir, entries } => if m.contains_key(dir) {
            m.insert(dir, DirDataView { dir_entries: entries, ..m[dir] })
        } else {
            m
        },
        WatchResultView::MdCreated { dir, path, content } => if m.contains_key(dir) {
            m.insert(dir, DirDataView { md_files: m[dir].md_files.insert(path, content), ..m[dir] })
        } else {
            m
        },
        WatchResultView::MdRemoved { dir, path } => if m.contains_key(dir) {
            m.insert(dir, DirDataView { md_files: m[dir].md_files.remove(path), ..m[dir] })
        } else {
            m
        },
        WatchResultView::FileModified(_) => m,
        WatchResultView::GitRefreshNeeded(_) => m,
    }
}

/// The directory table after the results `rs`, in order.
pub open spec fn apply_results_map(m: Map<Seq<char>, DirDataView>, rs: Seq<WatchResultView>) -> Map<
    Seq<char>,
    DirDataView,
>
    decreases rs.len(),
{
    if rs.len() == 0 {
        m
    } else {
        apply_result(apply_results_map(m, rs.drop_last()), rs.last())
    }
}

/// The markdown path a result reports as created or modified, if any.
pub open spec fn created_piece(r: WatchResultView) -> Seq<Seq<char>> {
    match r {
        WatchResultView::MdCreated { path, .. } => seq![path],
        _ => Seq::empty(),
    }
}

/// The markdown path a result reports as removed, if any.
pub open spec fn removed_piece(r: WatchResultView) -> Seq<Seq<char>> {
    match r {
        WatchResultView::MdRemoved { path, .. } => seq![path],
        _ => Seq::empty(),
    }
}

/// The editor file a result reports as modified, if any.
pub open spec fn modified_piece(r: WatchResultView) -> Seq<Seq<char>> {
    match r {
        WatchResultView::FileModified(p) => seq![p],
        _ => Seq::empty(),
    }
}

/// The directory a result asks a git refresh for, if any.
pub open spec fn refresh_piece(r: WatchResultView) -> Seq<Seq<char>> {
    match r {
        WatchResultView::GitRefreshNeeded(p) => seq![p],
        _ => Seq::empty(),
    }
}

/// The paths of the markdown files created or modified, in order.
pub open spec fn created_md(rs: Seq<WatchResultView>) -> Seq<Seq<char>>
    decreases rs.len(),
{
    if rs.len() == 0 {
        Seq::empty()
    } else {
        created_md(rs.drop_last()) + created_piece(rs.last())
    }
}

/// The paths of the markdown files removed, in order.
pub open spec fn removed_md(rs: Seq<WatchResultView>) -> Seq<Seq<char>>
    decreases rs.len(),
{
    if rs.len() == 0 {
        Seq::empty()
    } else {
        removed_md(rs.drop_last()) + removed_piece(rs.last())
    }
}

/// The paths of the editor files modified on disk, in order.
pub open spec fn modified_files(rs: Seq<WatchResultView>) -> Seq<Seq<char>>
    decreases rs.len(),
{
    if rs.len() == 0 {
        Seq::empty()
    } else {
        modified_files(rs.drop_last()) + modified_piece(rs.last())
    }
}

/// The directories that asked for a git refresh, in order.
pub open spec fn refresh_requests(rs: Seq<WatchResultView>) -> Seq<Seq<char>>
    decreases rs.len(),
{
    if rs.len() == 0 {
        Seq::empty()
    } else {
        refresh_requests(rs.drop_last()) + refresh_piece(rs.last())
    }
}

/// The table after marking each of `dirs` that is known as due for a git
/// refresh at `now`, unless a refresh is already scheduled for it.
pub open spec fn mark_refresh(m: Map<Seq<char>, DirDataView>, dirs: Seq<Seq<char>>, now: u64) -> Map<
    Seq<char>,
    DirDataView,
>
    decreases dirs.len(),
{
    if dirs.len() == 0 {
        m
    } else {
        let m2 = mark_refresh(m, dirs.drop_last(), now);
        let d = dirs.last();
        if m2.contains_key(d) && m2[d].git_refresh_at is None {
            m2.insert(d, DirDataView { git_refresh_at: Some(now), ..m2[d] })
        } else {
            m2
        }
    }
}

/// The table after draining the results `rs` at time `now`.
pub open spec fn drained_table(m: Map<Seq<char>, DirDataView>, rs: Seq<WatchResultView>, now: u64) -> Map<
    Seq<char>,
    DirDataView,
> {
    mark_refresh(apply_results_map(m, rs), refresh_requests(rs), now)
}

/// A refresh is due at `now`.
pub open spec fn refresh_due(d: DirDataView, now: u64) -> bool {
    d.git_refresh_at is Some && now >= d.git_refresh_at->0
}

/// The keys among `keys` whose refresh is due at `now`, in order.
pub open spec fn due_keys(keys: Seq<Seq<char>>, m: Map<Seq<char>, DirDataView>, now: u64) -> Seq<
    Seq<char>,
>
    decreases keys.len(),
{
    if keys.len() == 0 {
        Seq::empty()
    } else {
        due_keys(keys.drop_last(), m, now) + (if m.contains_key(keys.last()) && refresh_due(
            m[keys.last()],
            now,
        ) {
            seq![keys.last()]
        } else {
            Seq::empty()
        })
    }
}

/// The table with every due refresh taken (its time cleared).
pub open spec fn take_due(m: Map<Seq<char>, DirDataView>, now: u64) -> Map<Seq<char>, DirDataView> {
    Map::new(
        |k: Seq<char>| m.contains_key(k),
        |k: Seq<char>|
            if refresh_due(m[k], now) {
                DirDataView { git_refresh_at: None, ..m[k] }
            } else {
                m[k]
            },
    )
}

/// The table after a git result for `dir` arrived.
pub open spec fn with_git_result(
    m: Map<Seq<char>, DirDataView>,
    dir: Seq<char>,
    diff: Seq<char>,
    status: Seq<char>,
    op: MergeOperation,
) -> Map<Seq<char>, DirDataView> {
    if m.contains_key(dir) {
        m.insert(dir, DirDataView { git_diff: diff, git_status: status, merge_operation: op, ..m[dir] })
    } else {
        m
    }
}

/// The table after the unpushed commits of `dir` arrived.
pub open spec fn with_unpushed(
    m: Map<Seq<char>, DirDataView>,
    dir: Seq<char>,
    commits: Seq<(Seq<char>, Seq<char>)>,
) -> Map<Seq<char>, DirDataView> {
    if m.contains_key(dir) {
        m.insert(dir, DirDataView { git_unpushed: commits, ..m[dir] })
    } else {
        m
    }
}

// ── Executable ───────────────────────────────────────────────────────────────

fn clone_pairs(v: &Vec<(String, String)>) -> (r: Vec<(String, String)>)
    ensures
        r@ == v@,
{
    let mut r: Vec<(String, String)> = Vec::new();
    let mut i: usize = 0;
    while i < v.len()
        invariant
            0 <= i <= v.len(),
            r@ == v@.subrange(0, i as int),
        decreases v.len() - i,
    {
        let p = (v[i].0.clone(), v[i].1.clone());
        r.push(p);
        assert(r@ =~= v@.subrange(0, (i + 1) as int));
        i = i + 1;
    }
    assert(v@.subrange(0, v@.len() as int) =~= v@);
    r
}

/// The view of the entry left in the table while an entry is out for a
/// change: no git data, no files, no entries.
spec fn placeholder_view() -> DirDataView {
    DirDataView {
        is_git: false,
        git_diff: Seq::empty(),
        git_status: Seq::empty(),
        git_unpushed: Seq::empty(),
        git_refresh_at: None,
        merge_operation: MergeOperation::NoOperation,
        md_files: Map::empty(),
        dir_entries: Seq::empty(),
    }
}

fn placeholder() -> (d: DirData)
    ensures
        d@ == placeholder_view(),
{
    let d = DirData {
        is_git: false,
        git_diff: String::new(),
        git_status: String::new(),
        git_unpushed: Vec::new(),
        git_refresh_at: None,
        merge_operation: MergeOperation::NoOperation,
        md_files: PathMap::new(),
        dir_entries: Vec::new(),
    };
    assert(d@.md_files =~= Map::<Seq<char>, Seq<char>>::empty());
    assert(d@.git_unpushed =~= Seq::<(Seq<char>, Seq<char>)>::empty());
    assert(d@.dir_entries =~= Seq::<Seq<char>>::empty());
    d
}

proof fn lemma_view_insert(m: Map<Seq<char>, DirData>, k: Seq<char>, d: DirData)
    ensures
        m.insert(k, d).map_values(|x: DirData| x@) == m.map_values(|x: DirData| x@).insert(k, d@),
{
    assert(m.insert(k, d).map_values(|x: DirData| x@) =~= m.map_values(|x: DirData| x@).insert(
        k,
        d@,
    ));
}

proof fn lemma_view_remove(m: Map<Seq<char>, DirData>, k: Seq<char>)
    ensures
        m.remove(k).map_values(|x: DirData| x@) == m.map_values(|x: DirData| x@).remove(k),
{
    assert(m.remove(k).map_values(|x: DirData| x@) =~= m.map_values(|x: DirData| x@).remove(k));
}

proof fn lemma_md_insert(m: Map<Seq<char>, String>, k: Seq<char>, s: String)
    ensures
        m.insert(k, s).map_values(|x: String| x@) == m.map_values(|x: String| x@).insert(k, s@),
{
    assert(m.insert(k, s).map_values(|x: String| x@) =~= m.map_values(|x: String| x@).insert(
        k,
        s@,
    ));
}

proof fn lemma_md_remove(m: Map<Seq<char>, String>, k: Seq<char>)
    ensures
        m.remove(k).map_values(|x: String| x@) == m.map_values(|x: String| x@).remove(k),
{
    assert(m.remove(k).map_values(|x: String| x@) =~= m.map_values(|x: String| x@).remove(k));
}

/// The interface side of the directory watcher.
pub struct WatchState {
    cmd_tx: Sender<WatchCommand>,
    result_rx: Receiver<WatchResult>,
    clock: Instant,
    /// What is known of each watched directory.
    pub dir_data: PathMap<DirData>,
    pub last_sync: Instant,
    pub last_session_count: usize,
    /// The commands handed to the sender so far, in order.
    sent: Ghost<Seq<WatchCommandView>>,
}

impl WatchState {
    /// The directory table as plain values.
    pub closed spec fn dir_view(&self) -> Map<Seq<char>, DirDataView> {
        self.dir_data@.map_values(|d: DirData| d@)
    }

    /// The sender this state's commands go out on.
    pub closed spec fn command_sender(&self) -> Sender<WatchCommand> {
        self.cmd_tx
    }

    /// The session count the last sync was made for.
    pub closed spec fn synced_session_count(&self) -> usize {
        self.last_session_count
    }

    /// The commands this state has handed to its sender, in order.
    pub closed spec fn sent_log(&self) -> Seq<WatchCommandView> {
        self.sent@
    }

    /// Hands `cmd` to the command sender and records it.
    fn send(&mut self, cmd: WatchCommand)
        ensures
            final(self).sent_log() == old(self).sent_log().push(cmd@),
            final(self).dir_view() == old(self).dir_view(),
            final(self).dir_keys() == old(self).dir_keys(),
    {
        let ghost v = cmd@;
        send_command(&self.cmd_tx, cmd);
        proof {
            self.sent@ = self.sent@.push(v);
        }
    }

    /// The receiver this state's results come in on.
    pub closed spec fn result_receiver(&self) -> Receiver<WatchResult> {
        self.result_rx
    }

    /// A watch state that sends commands on `cmd_tx` and reads results from
    /// `result_rx`, with no directory known yet.
    pub fn from_channels(cmd_tx: Sender<WatchCommand>, result_rx: Receiver<WatchResult>) -> (r:
        Self)
        ensures
            r.dir_view() == Map::<Seq<char>, DirDataView>::empty(),
            r.command_sender() == cmd_tx,
            r.result_receiver() == result_rx,
            r.synced_session_count() == 0,
            r.sent_log() == Seq::<WatchCommandView>::empty(),
    {
        let r = WatchState {
            cmd_tx,
            result_rx,
            clock: clock_start(),
            dir_data: PathMap::new(),
            last_sync: clock_start(),
            last_session_count: 0,
            sent: Ghost(Seq::empty()),
        };
        assert(r.dir_view() =~= Map::<Seq<char>, DirDataView>::empty());
        r
    }

    /// A watch state with no worker thread, and the sender its results come on.
    pub fn new_for_test() -> (r: (Self, Sender<WatchResult>))
        ensures
            r.0.dir_view() == Map::<Seq<char>, DirDataView>::empty(),
            r.0.synced_session_count() == 0,
            r.0.sent_log() == Seq::<WatchCommandView>::empty(),
    {
        let (cmd_tx, _cmd_rx) = channel::<WatchCommand>();
        let (result_tx, result_rx) = channel::<WatchResult>();
        (Self::from_channels(cmd_tx, result_rx), result_tx)
    }

    /// Milliseconds since this state was made (the clock of `git_refresh_at`).
    pub fn clock_millis(&self) -> u64 {
        millis_since(&self.clock)
    }

    /// Sends the current session working directories to the watcher thread.
    pub fn request_sync(&mut self, cwds: Vec<String>)
        ensures
            final(self).sent_log() == old(self).sent_log().push(
                WatchCommandView::SyncCwds(strings_view(cwds@)),
            ),
            final(self).dir_view() == old(self).dir_view(),
            final(self).dir_keys() == old(self).dir_keys(),
    {
        self.send(WatchCommand::SyncCwds(cwds));
    }

    /// Sends the set of files open in editors to the watcher thread.
    pub fn sync_editor_files(&mut self, paths: Vec<String>)
        ensures
            final(self).sent_log() == old(self).sent_log().push(
                WatchCommandView::SyncEditorFiles(strings_view(paths@)),
            ),
            final(self).dir_view() == old(self).dir_view(),
            final(self).dir_keys() == old(self).dir_keys(),
    {
        self.send(WatchCommand::SyncEditorFiles(paths));
    }

    /// Asks the watcher thread to stop (done when the state is dropped).
    pub fn shutdown(&mut self)
        ensures
            final(self).sent_log() == old(self).sent_log().push(WatchCommandView::Shutdown),
            final(self).dir_view() == old(self).dir_view(),
            final(self).dir_keys() == old(self).dir_keys(),
    {
        self.send(WatchCommand::Shutdown);
    }

    /// Takes the entry of `dir` at `i` out for a change, leaving a placeholder.
    fn take_entry(&mut self, i: usize) -> (d: DirData)
        requires
            i < old(self).dir_data.keys().len(),
        ensures
            d == old(self).dir_data@[old(self).dir_data.keys()[i as int]],
            final(self).dir_data.keys() == old(self).dir_data.keys(),
            final(self).dir_data@ == old(self).dir_data@.insert(
                old(self).dir_data.keys()[i as int],
                final(self).dir_data@[old(self).dir_data.keys()[i as int]],
            ),
            final(self).cmd_tx == old(self).cmd_tx,
            final(self).last_session_count == old(self).last_session_count,
            final(self).sent == old(self).sent,
    {
        self.dir_data.replace_at(i, placeholder())
    }

    /// Applies one result, collecting the paths it reports.
    fn apply_one(
        &mut self,
        r: WatchResult,
        created: &mut Vec<String>,
        removed: &mut Vec<String>,
        modified: &mut Vec<String>,
        refreshes: &mut Vec<String>,
    )
        ensures
            final(self).dir_view() == apply_result(old(self).dir_view(), r@),
            strings_view(final(created)@) == strings_view(old(created)@) + created_md(seq![r@]),
            strings_view(final(removed)@) == strings_view(old(removed)@) + removed_md(seq![r@]),
            strings_view(final(modified)@) == strings_view(old(modified)@) + modified_files(
                seq![r@],
            ),
            strings_view(final(refreshes)@) == strings_view(old(refreshes)@) + refresh_requests(
                seq![r@],
            ),
            final(self).last_session_count == old(self).last_session_count,
            final(self).sent == old(self).sent,
    {
        let ghost m0 = self.dir_data@;
        let ghost rv = r@;
        proof {
            lemma_single(rv);
        }
        match r {
            WatchResult::DirAdded { path, mut data } => {
                match self.dir_data.find(path.as_str()) {
                    Some(i) => {
                        let existing = self.dir_data.value_at(i);
                        data.git_diff = existing.git_diff.clone();
                        data.git_status = existing.git_status.clone();
                        data.git_unpushed = clone_pairs(&existing.git_unpushed);
                        data.merge_operation = existing.merge_operation;
                    },
                    None => {},
                }
                let ghost d = data;
                self.dir_data.insert(path, data);
                proof {
                    lemma_view_insert(m0, path@, d);
                }
                assert(self.dir_view() =~= apply_result(old(self).dir_view(), rv));
                assert(strings_view(created@) =~= strings_view(old(created)@) + created_md(seq![rv]));
                assert(strings_view(removed@) =~= strings_view(old(removed)@) + removed_md(seq![rv]));
                assert(strings_view(modified@) =~= strings_view(old(modified)@) + modified_files(seq![rv]));
                assert(strings_view(refreshes@) =~= strings_view(old(refreshes)@) + refresh_requests(seq![rv]));
            },
            WatchResult::DirRemoved(path) => {
                let _ = self.dir_data.remove(path.as_str());
                proof {
                    lemma_view_remove(m0, path@);
                }
                assert(strings_view(created@) =~= strings_view(old(created)@) + created_md(seq![rv]));
                assert(strings_view(removed@) =~= strings_view(old(removed)@) + removed_md(seq![rv]));
                assert(strings_view(modified@) =~= strings_view(old(modified)@) + modified_files(seq![rv]));
                assert(strings_view(refreshes@) =~= strings_view(old(refreshes)@) + refresh_requests(seq![rv]));
            },
            WatchResult::DirEntriesRefreshed { dir, entries } => {
                match self.dir_data.find(dir.as_str()) {
                    Some(i) => {
                        let mut d = self.take_entry(i);
                        let ghost d0 = d;
                        d.dir_entries = entries;
                        let ghost d1 = d;
                        let _ = self.dir_data.replace_at(i, d);
                        proof {
                            let m1 = self.dir_data@;
                            assert(m1 == m0.insert(dir@, d1));
                            lemma_view_insert(m0, dir@, d1);
                            assert(d1@ == DirDataView { dir_entries: strings_view(entries@), ..d0@ });
                        }
                        assert(self.dir_view() =~= apply_result(old(self).dir_view(), rv));
                    },
                    None => {},
                }
                assert(strings_view(created@) =~= strings_view(old(created)@) + created_md(seq![rv]));
                assert(strings_view(removed@) =~= strings_view(old(removed)@) + removed_md(seq![rv]));
                assert(strings_view(modified@) =~= strings_view(old(modified)@) + modified_files(seq![rv]));
                assert(strings_view(refreshes@) =~= strings_view(old(refreshes)@) + refresh_requests(seq![rv]));
            },
            WatchResult::MdCreated { dir, path, content } => {
                match self.dir_data.find(dir.as_str()) {
                    Some(i) => {
                        let mut d = self.take_entry(i);
                        let ghost d0 = d;
                        let ghost md0 = d.md_files@;
                        d.md_files.insert(path.clone(), content);
                        proof {
                            lemma_md_insert(md0, path@, content);
                        }
                        let ghost d1 = d;
                        let _ = self.dir_data.replace_at(i, d);
                        proof {
                            lemma_view_insert(m0, dir@, d1);
                            assert(d1@ =~= DirDataView {
                                md_files: d0@.md_files.insert(path@, content@),
                                ..d0@
                            });
                        }
                        assert(self.dir_view() =~= apply_result(old(self).dir_view(), rv));
                    },
                    None => {},
                }
                created.push(path);
                assert(strings_view(created@) =~= strings_view(old(created)@) + created_md(seq![rv]));
                assert(strings_view(removed@) =~= strings_view(old(removed)@) + removed_md(seq![rv]));
                assert(strings_view(modified@) =~= strings_view(old(modified)@) + modified_files(seq![rv]));
                assert(strings_view(refreshes@) =~= strings_view(old(refreshes)@) + refresh_requests(seq![rv]));
            },
            WatchResult::MdRemoved { dir, path } => {
                match self.dir_data.find(dir.as_str()) {
                    Some(i) => {
                        let mut d = self.take_entry(i);
                        let ghost d0 = d;
                        let ghost md0 = d.md_files@;
                        let _ = d.md_files.remove(path.as_str());
                        proof {
                            lemma_md_remove(md0, path@);
                        }
                        let ghost d1 = d;
                        let _ = self.dir_data.replace_at(i, d);
                        proof {
                            lemma_view_insert(m0, dir@, d1);
                            assert(d1@ =~= DirDataView {
                                md_files: d0@.md_files.remove(path@),
                                ..d0@
                            });
                        }
                        assert(self.dir_view() =~= apply_result(old(self).dir_view(), rv));
                    },
                    None => {},
                }
                removed.push(path);
                assert(strings_view(created@) =~= strings_view(old(created)@) + created_md(seq![rv]));
                assert(strings_view(removed@) =~= strings_view(old(removed)@) + removed_md(seq![rv]));
                assert(strings_view(modified@) =~= strings_view(old(modified)@) + modified_files(seq![rv]));
                assert(strings_view(refreshes@) =~= strings_view(old(refreshes)@) + refresh_requests(seq![rv]));
            },
            WatchResult::FileModified(path) => {
                modified.push(path);
                assert(strings_view(created@) =~= strings_view(old(created)@) + created_md(seq![rv]));
                assert(strings_view(removed@) =~= strings_view(old(removed)@) + removed_md(seq![rv]));
                assert(strings_view(modified@) =~= strings_view(old(modified)@) + modified_files(seq![rv]));
                assert(strings_view(refreshes@) =~= strings_view(old(refreshes)@) + refresh_requests(seq![rv]));
            },
            WatchResult::GitRefreshNeeded(dir) => {
                refreshes.push(dir);
                assert(strings_view(created@) =~= strings_view(old(created)@) + created_md(seq![rv]));
                assert(strings_view(removed@) =~= strings_view(old(removed)@) + removed_md(seq![rv]));
                assert(strings_view(modified@) =~= strings_view(old(modified)@) + modified_files(seq![rv]));
                assert(strings_view(refreshes@) =~= strings_view(old(refreshes)@) + refresh_requests(seq![rv]));
            },
        }
    }

    /// The keys of the directory table, in order.
    pub closed spec fn dir_keys(&self) -> Seq<Seq<char>> {
        self.dir_data.keys()
    }

    /// Applies `results` in order at time `now`, then marks each directory that
    /// asked for a git refresh as due at `now` unless one is already scheduled.
    /// Returns the markdown files created or modified, the markdown files
    /// removed, and the editor files modified on disk, each in order.
    pub fn apply_results(&mut self, results: Vec<WatchResult>, now: u64) -> (r: (
        Vec<String>,
        Vec<String>,
        Vec<String>,
    ))
        ensures
            final(self).dir_view() == drained_table(
                old(self).dir_view(),
                results_view(results@),
                now,
            ),
            strings_view(r.0@) == created_md(results_view(results@)),
            strings_view(r.1@) == removed_md(results_view(results@)),
            strings_view(r.2@) == modified_files(results_view(results@)),
            final(self).sent_log() == old(self).sent_log(),
    {
        let ghost rs0 = results_view(results@);
        let ghost m0 = self.dir_view();
        let mut results = results;
        let mut created: Vec<String> = Vec::new();
        let mut removed: Vec<String> = Vec::new();
        let mut modified: Vec<String> = Vec::new();
        let mut refreshes: Vec<String> = Vec::new();
        let ghost mut i: int = 0;
        assert(rs0.take(0) =~= Seq::<WatchResultView>::empty());
        assert(rs0.subrange(0, rs0.len() as int) =~= rs0);
        assert(strings_view(created@) =~= Seq::<Seq<char>>::empty());
        assert(strings_view(removed@) =~= Seq::<Seq<char>>::empty());
        assert(strings_view(modified@) =~= Seq::<Seq<char>>::empty());
        assert(strings_view(refreshes@) =~= Seq::<Seq<char>>::empty());
        while results.len() > 0
            invariant
                0 <= i <= rs0.len(),
                results_view(results@) == rs0.subrange(i, rs0.len() as int),
                self.dir_view() == apply_results_map(m0, rs0.take(i)),
                strings_view(created@) == created_md(rs0.take(i)),
                strings_view(removed@) == removed_md(rs0.take(i)),
                strings_view(modified@) == modified_files(rs0.take(i)),
                strings_view(refreshes@) == refresh_requests(rs0.take(i)),
                self.sent == old(self).sent,
            decreases results.len(),
        {
            let ghost before = results@;
            let r = results.remove(0);
            proof {
                assert(results_view(before) == rs0.subrange(i, rs0.len() as int));
                assert(results_view(before)[0] == before[0]@);
                assert(r == before[0]);
                assert(results_view(before).len() == before.len());
                assert(i < rs0.len());
                assert(rs0.subrange(i, rs0.len() as int)[0] == rs0[i]);
                assert(r@ == rs0[i]);
                assert(results@ =~= before.subrange(1, before.len() as int));
                assert forall|j: int| 0 <= j < results@.len() implies #[trigger] results_view(
                    results@,
                )[j] == rs0[i + 1 + j] by {
                    assert(results_view(before)[j + 1] == before[j + 1]@);
                    assert(rs0.subrange(i, rs0.len() as int)[j + 1] == rs0[i + 1 + j]);
                }
                assert(results_view(results@) =~= rs0.subrange(
                    i + 1,
                    rs0.len() as int,
                ));
                lemma_step(m0, rs0, i);
            }
            self.apply_one(r, &mut created, &mut removed, &mut modified, &mut refreshes);
            proof {
                i = i + 1;
            }
        }
        proof {
            assert(rs0.take(i) =~= rs0);
        }
        let ghost m1 = self.dir_view();
        let ghost ds = strings_view(refreshes@);
        let mut j: usize = 0;
        assert(ds.take(0) =~= Seq::<Seq<char>>::empty());
        while j < refreshes.len()
            invariant
                0 <= j <= refreshes.len(),
                ds == strings_view(refreshes@),
                self.dir_view() == mark_refresh(m1, ds.take(j as int), now),
                self.sent == old(self).sent,
            decreases refreshes.len() - j,
        {
            proof {
                assert(ds.take(j + 1).drop_last() =~= ds.take(j as int));
                assert(ds[j as int] == refreshes@[j as int]@);
            }
            let ghost mc = self.dir_view();
            match self.dir_data.find(refreshes[j].as_str()) {
                Some(k) => {
                    if self.dir_data.value_at(k).git_refresh_at.is_none() {
                        let mut d = self.take_entry(k);
                        let ghost d0 = d;
                        d.git_refresh_at = Some(now);
                        let ghost d1 = d;
                        let ghost mraw = old(self).dir_data@;
                        let _ = self.dir_data.replace_at(k, d);
                        proof {
                            assert(d1@ == DirDataView { git_refresh_at: Some(now), ..d0@ });
                            assert(self.dir_view() =~= mc.insert(ds[j as int], d1@));
                        }
                    }
                },
                None => {},
            }
            j = j + 1;
        }
        proof {
            assert(ds.take(j as int) =~= ds);
        }
        (created, removed, modified)
    }

    /// Takes in the results the watcher thread has sent so far and applies them
    /// (`apply_results` at the current time of this state's clock).
    pub fn drain_results(&mut self) -> (r: (Vec<String>, Vec<String>, Vec<String>))
        ensures
            exists|rs: Seq<WatchResultView>, now: u64|
                #[trigger] drained_table(old(self).dir_view(), rs, now) == final(self).dir_view()
                    && strings_view(r.0@) == created_md(rs) && strings_view(r.1@) == removed_md(rs)
                    && strings_view(r.2@) == modified_files(rs),
            final(self).sent_log() == old(self).sent_log(),
    {
        let results = receive_pending(&self.result_rx);
        let now = millis_since(&self.clock);
        let ghost rs = results_view(results@);
        let r = self.apply_results(results, now);
        assert(drained_table(old(self).dir_view(), rs, now) == self.dir_view());
        r
    }

    /// Takes every git refresh due at `now`: clears its time and returns its
    /// directory, in table order.
    pub fn take_pending_git_refreshes_at(&mut self, now: u64) -> (r: Vec<String>)
        ensures
            final(self).dir_view() == take_due(old(self).dir_view(), now),
            final(self).dir_keys() == old(self).dir_keys(),
            strings_view(r@) == due_keys(old(self).dir_keys(), old(self).dir_view(), now),
            old(self).dir_keys().no_duplicates(),
            forall|k: Seq<char>| #[trigger]
                old(self).dir_view().contains_key(k) <==> old(self).dir_keys().contains(k),
            final(self).sent_log() == old(self).sent_log(),
    {
        let ghost m0 = self.dir_view();
        let ghost keys0 = self.dir_keys();
        proof {
            use_type_invariant(&self.dir_data);
            self.dir_data.lemma_keys_are_domain();
        }
        let mut r: Vec<String> = Vec::new();
        let mut i: usize = 0;
        let n = self.dir_data.len();
        assert(keys0.take(0) =~= Seq::<Seq<char>>::empty());
        assert(strings_view(r@) =~= Seq::<Seq<char>>::empty());
        while i < n
            invariant
                0 <= i <= n == keys0.len(),
                keys0 == old(self).dir_keys(),
                m0 == old(self).dir_view(),
                self.sent == old(self).sent,
                keys0.no_duplicates(),
                forall|k: Seq<char>| #[trigger] m0.contains_key(k) <==> keys0.contains(k),
                self.dir_keys() == keys0,
                forall|k: Seq<char>| #[trigger] self.dir_view().contains_key(k) <==> m0.contains_key(k),
                forall|k: Seq<char>|
                    #[trigger] self.dir_view().contains_key(k) ==> self.dir_view()[k] == (if keys0.take(
                        i as int,
                    ).contains(k) && refresh_due(m0[k], now) {
                        DirDataView { git_refresh_at: None, ..m0[k] }
                    } else {
                        m0[k]
                    }),
                strings_view(r@) == due_keys(keys0.take(i as int), m0, now),
            decreases n - i,
        {
            let ghost k = keys0[i as int];
            let ghost mc = self.dir_view();
            proof {
                assert(keys0.take(i + 1).drop_last() =~= keys0.take(i as int));
                assert(keys0.contains(k));
                assert(!keys0.take(i as int).contains(k)) by {
                    if keys0.take(i as int).contains(k) {
                        let a = choose|a: int| 0 <= a < i && keys0.take(i as int)[a] == k;
                        assert(keys0[a] == keys0[i as int]);
                    }
                }
                assert(mc.contains_key(k));
                assert(mc[k] == m0[k]);
                let t0 = keys0.take(i as int);
                let t1 = keys0.take(i + 1);
                assert forall|x: Seq<char>| t1.contains(x) <==> (t0.contains(x) || x == k) by {
                    if t1.contains(x) {
                        let a = choose|a: int| 0 <= a < t1.len() && #[trigger] t1[a] == x;
                        if a < i {
                            assert(t0[a] == x);
                        }
                    }
                    if t0.contains(x) {
                        let a = choose|a: int| 0 <= a < t0.len() && #[trigger] t0[a] == x;
                        assert(t1[a] == x);
                    }
                    if x == k {
                        assert(t1[i as int] == x);
                    }
                }
            }
            let due = match self.dir_data.value_at(i).git_refresh_at {
                Some(t) => now >= t,
                None => false,
            };
            if due {
                let mut d = self.take_entry(i);
                let ghost d0 = d;
                d.git_refresh_at = None;
                let ghost d1 = d;
                let _ = self.dir_data.replace_at(i, d);
                proof {
                    assert(d1@ == DirDataView { git_refresh_at: None, ..d0@ });
                    assert(self.dir_view() =~= mc.insert(k, d1@));
                }
                let key = self.dir_data.key_at(i).clone();
                r.push(key);
                proof {
                    assert(strings_view(r@) =~= due_keys(keys0.take(i + 1), m0, now));
                }
            } else {
                proof {
                    assert(strings_view(r@) =~= due_keys(keys0.take(i + 1), m0, now));
                }
            }
            i = i + 1;
        }
        proof {
            assert(keys0.take(n as int) =~= keys0);
            assert(self.dir_view() =~= take_due(m0, now));
        }
        r
    }

    /// Takes every git refresh due now (by this state's clock).
    pub fn take_pending_git_refreshes(&mut self) -> (r: Vec<String>)
        ensures
            exists|now: u64|
                #[trigger] take_due(old(self).dir_view(), now) == final(self).dir_view()
                    && strings_view(r@) == due_keys(old(self).dir_keys(), old(self).dir_view(), now),
            final(self).dir_keys() == old(self).dir_keys(),
            old(self).dir_keys().no_duplicates(),
            forall|k: Seq<char>| #[trigger]
                old(self).dir_view().contains_key(k) <==> old(self).dir_keys().contains(k),
            final(self).sent_log() == old(self).sent_log(),
    {
        let now = millis_since(&self.clock);
        let r = self.take_pending_git_refreshes_at(now);
        assert(take_due(old(self).dir_view(), now) == self.dir_view());
        r
    }

    /// Records a git result for `dir` when it is known, and passes it on to the
    /// watcher thread.
    pub fn apply_git_result(
        &mut self,
        dir: &str,
        diff: String,
        status: String,
        merge_op: MergeOperation,
    )
        ensures
            final(self).dir_view() == with_git_result(
                old(self).dir_view(),
                dir@,
                diff@,
                status@,
                merge_op,
            ),
            final(self).dir_keys() == old(self).dir_keys(),
            final(self).sent_log() == old(self).sent_log().push(
                WatchCommandView::ApplyGitResult { dir: dir@, diff: diff@, status: status@ },
            ),
    {
        let ghost m0 = self.dir_view();
        match self.dir_data.find(dir) {
            Some(i) => {
                let mut d = self.take_entry(i);
                let ghost d0 = d;
                d.git_diff = diff.clone();
                d.git_status = status.clone();
                d.merge_operation = merge_op;
                let ghost d1 = d;
                let _ = self.dir_data.replace_at(i, d);
                proof {
                    assert(d1@ == DirDataView {
                        git_diff: diff@,
                        git_status: status@,
                        merge_operation: merge_op,
                        ..d0@
                    });
                    assert(self.dir_view() =~= with_git_result(m0, dir@, diff@, status@, merge_op));
                }
            },
            None => {},
        }
        self.send(WatchCommand::ApplyGitResult { dir: dir.to_owned(), diff, status });
    }

    /// Records the unpushed commits of `dir` when it is known, and passes them
    /// on to the watcher thread.
    pub fn apply_unpushed_result(&mut self, dir: &str, commits: Vec<(String, String)>)
        ensures
            final(self).dir_view() == with_unpushed(old(self).dir_view(), dir@, pairs_view(commits@)),
            final(self).dir_keys() == old(self).dir_keys(),
            final(self).sent_log() == old(self).sent_log().push(
                WatchCommandView::ApplyUnpushedResult { dir: dir@, commits: pairs_view(commits@) },
            ),
    {
        let ghost m0 = self.dir_view();
        match self.dir_data.find(dir) {
            Some(i) => {
                let mut d = self.take_entry(i);
                let ghost d0 = d;
                d.git_unpushed = clone_pairs(&commits);
                let ghost d1 = d;
                let _ = self.dir_data.replace_at(i, d);
                proof {
                    assert(d1@ == DirDataView { git_unpushed: pairs_view(commits@), ..d0@ });
                    assert(self.dir_view() =~= with_unpushed(m0, dir@, pairs_view(commits@)));
                }
            },
            None => {},
        }
        self.send(WatchCommand::ApplyUnpushedResult { dir: dir.to_owned(), commits });
    }
}

proof fn lemma_step(m: Map<Seq<char>, DirDataView>, rs: Seq<WatchResultView>, i: int)
    requires
        0 <= i < rs.len(),
    ensures
        apply_results_map(m, rs.take(i + 1)) == apply_result(apply_results_map(m, rs.take(i)), rs[i]),
        created_md(rs.take(i + 1)) == created_md(rs.take(i)) + created_md(seq![rs[i]]),
        removed_md(rs.take(i + 1)) == removed_md(rs.take(i)) + removed_md(seq![rs[i]]),
        modified_files(rs.take(i + 1)) == modified_files(rs.take(i)) + modified_files(seq![rs[i]]),
        refresh_requests(rs.take(i + 1)) == refresh_requests(rs.take(i)) + refresh_requests(
            seq![rs[i]],
        ),
{
    lemma_single(rs[i]);
    assert(rs.take(i + 1).drop_last() =~= rs.take(i));
}

proof fn lemma_single(x: WatchResultView)
    ensures
        created_md(seq![x]) == created_piece(x),
        removed_md(seq![x]) == removed_piece(x),
        modified_files(seq![x]) == modified_piece(x),
        refresh_requests(seq![x]) == refresh_piece(x),
{
    let s1 = seq![x];
    let e = Seq::<WatchResultView>::empty();
    assert(s1.drop_last() =~= e);
    assert(s1.last() == x);
    assert(created_md(e) =~= Seq::<Seq<char>>::empty());
    assert(removed_md(e) =~= Seq::<Seq<char>>::empty());
    assert(modified_files(e) =~= Seq::<Seq<char>>::empty());
    assert(refresh_requests(e) =~= Seq::<Seq<char>>::empty());
    assert(created_md(s1) =~= created_piece(x));
    assert(removed_md(s1) =~= removed_piece(x));
    assert(modified_files(s1) =~= modified_piece(x));
    assert(refresh_requests(s1) =~= refresh_piece(x));
}

// ── What the directory table keeps ──────────────────────────────────────────

/// A directory added again keeps the git data already known of it (diff,
/// status, unpushed commits, merge operation) and takes every other field
/// from the fresh data.
pub proof fn lemma_dir_added_keeps_git_data(m: Map<Seq<char>, DirDataView>, path: Seq<char>, data: DirDataView)
    requires
        m.contains_key(path),
    ensures
        ({
            let d = apply_result(m, (WatchResultView::DirAdded { path, data }))[path];
            &&& d.git_diff == m[path].git_diff
            &&& d.git_status == m[path].git_status
            &&& d.git_unpushed == m[path].git_unpushed
            &&& d.merge_operation == m[path].merge_operation
            &&& d.is_git == data.is_git
            &&& d.git_refresh_at == data.git_refresh_at
            &&& d.md_files == data.md_files
            &&& d.dir_entries == data.dir_entries
        }),
{
}

/// A directory removed and then added again starts from the fresh data.
pub proof fn lemma_removed_then_added_is_fresh(m: Map<Seq<char>, DirDataView>, path: Seq<char>, data: DirDataView)
    ensures
        apply_results_map(
            m,
            seq![WatchResultView::DirRemoved(path), (WatchResultView::DirAdded { path, data })],
        )[path] == data,
{
    let rs = seq![WatchResultView::DirRemoved(path), WatchResultView::DirAdded { path, data }];
    let r1 = rs.drop_last();
    assert(r1 =~= seq![WatchResultView::DirRemoved(path)]);
    assert(r1.drop_last() =~= Seq::<WatchResultView>::empty());
    assert(apply_results_map(m, r1.drop_last()) == m);
    assert(apply_results_map(m, r1) == m.remove(path));
    assert(!m.remove(path).contains_key(path));
    assert(apply_results_map(m, rs) == m.remove(path).insert(path, data));
}

/// A git result for a directory that is not known changes nothing; for a
/// known one it sets exactly the diff, the status and the merge operation.
pub proof fn lemma_git_result_effect(
    m: Map<Seq<char>, DirDataView>,
    dir: Seq<char>,
    diff: Seq<char>,
    status: Seq<char>,
    op: MergeOperation,
)
    ensures
        !m.contains_key(dir) ==> with_git_result(m, dir, diff, status, op) == m,
        m.contains_key(dir) ==> with_git_result(m, dir, diff, status, op)[dir] == (DirDataView {
            git_diff: diff,
            git_status: status,
            merge_operation: op,
            ..m[dir]
        }),
        forall|k: Seq<char>| k != dir ==> #[trigger] with_git_result(m, dir, diff, status, op).contains_key(k)
            == m.contains_key(k) && (m.contains_key(k) ==> with_git_result(m, dir, diff, status, op)[k] == m[k]),
{
}

/// Git data that arrived for a directory survives the directory being added
/// again.
pub proof fn lemma_git_result_survives_dir_added(
    m: Map<Seq<char>, DirDataView>,
    dir: Seq<char>,
    diff: Seq<char>,
    status: Seq<char>,
    op: MergeOperation,
    data: DirDataView,
)
    requires
        m.contains_key(dir),
    ensures
        ({
            let d = apply_result(
                with_git_result(m, dir, diff, status, op),
                (WatchResultView::DirAdded { path: dir, data }),
            )[dir];
            &&& d.git_diff == diff
            &&& d.git_status == status
            &&& d.merge_operation == op
        }),
{
}

/// Due git refreshes are taken once: right after a take at `now`, none is
/// due at `now`.
pub proof fn lemma_take_due_once(keys: Seq<Seq<char>>, m: Map<Seq<char>, DirDataView>, now: u64)
    ensures
        due_keys(keys, take_due(m, now), now) == Seq::<Seq<char>>::empty(),
    decreases keys.len(),
{
    if keys.len() > 0 {
        lemma_take_due_once(keys.drop_last(), m, now);
        assert(due_keys(keys, take_due(m, now), now) =~= Seq::<Seq<char>>::empty());
    }
}

/// A git refresh request marks a known directory at most once: a second
/// request keeps the first time.
pub proof fn lemma_mark_refresh_keeps_time(
    m: Map<Seq<char>, DirDataView>,
    dirs: Seq<Seq<char>>,
    now: u64,
    k: Seq<char>,
)
    requires
        m.contains_key(k),
        m[k].git_refresh_at is Some,
    ensures
        mark_refresh(m, dirs, now).contains_key(k),
        mark_refresh(m, dirs, now)[k] == m[k],
    decreases dirs.len(),
{
    if dirs.len() > 0 {
        lemma_mark_refresh_keeps_time(m, dirs.drop_last(), now, k);
    }
}

} // verus!
