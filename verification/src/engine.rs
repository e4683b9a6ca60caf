//! What happens to a path that the watcher reports, and to the files of a folder that is scanned.
use crate::config::{AppConfig, RenameRecord, WatchedFolder, HISTORY_LIMIT};
use crate::config;
use crate::paths::{Part, PathParts};
use crate::paths;
use crate::rename::Outcome;
use crate::rename;
use crate::text;
use std::time::{SystemTime, UNIX_EPOCH};
use vstd::prelude::*;

verus! {

/// How often renaming a path is tried.
pub const ATTEMPTS: u32 = 3;

/// How long to wait before trying again.
pub const RETRY_DELAY_SECS: u64 = 1;

pub struct EngineState {
    pub config: AppConfig,
    /// The renames that were made, the latest first.
    pub history: Vec<RenameRecord>,
    pub enabled: bool,
    /// Paths that cannot be stored under a composed name, which are not tried again.
    pub failed: Vec<PathParts>,
}

pub struct EngineView {
    pub config: config::ConfigView,
    pub history: Seq<config::RecordView>,
    pub enabled: bool,
    pub failed: Set<Seq<Part>>,
}

pub open spec fn path_views(paths: Seq<PathParts>) -> Seq<Seq<Part>> {
    paths.map_values(|p: PathParts| p@)
}

impl View for EngineState {
    type V = EngineView;

    open spec fn view(&self) -> EngineView {
        EngineView {
            config: self.config@,
            history: config::record_views(self.history@),
            enabled: self.enabled,
            failed: path_views(self.failed@).to_set(),
        }
    }
}

impl EngineState {
    /// The switch agrees with the settings, and no path is remembered twice.
    pub open spec fn wf(&self) -> bool {
        &&& self.enabled == self.config.enabled
        &&& path_views(self.failed@).no_duplicates()
    }
}

/// The time since the Unix epoch in whole milliseconds, where the clock is not before it.
///
/// Trusted: reads the clock by `std::time::SystemTime::now` and hands the reading on as a number.
/// Nothing is said of the result, which is the time.
#[verifier::external_body]
fn clock_millis() -> (r: Option<u128>) {
    match SystemTime::now().duration_since(UNIX_EPOCH) {
        Ok(elapsed) => Some(elapsed.as_millis()),
        Err(_) => None,
    }
}

/// The time as a record holds it: the low 64 bits of the milliseconds, and zero for a clock that
/// is before the epoch.
pub open spec fn record_time(millis: Option<u128>) -> u64 {
    match millis {
        Some(ms) => (ms % 0x1_0000_0000_0000_0000) as u64,
        None => 0,
    }
}

/// The time that a record holds for a reading of the clock.
pub fn record_millis(millis: Option<u128>) -> (r: u64)
    ensures
        r == record_time(millis),
{
    match millis {
        Some(ms) => {
            let low: u64 = #[verifier::truncate]
            (ms as u64);
            assert(low == ms % 0x1_0000_0000_0000_0000) by (bit_vector)
                requires
                    low == ms as u64,
            ;
            low
        },
        None => 0,
    }
}

/// A record that is made now holds this time: the clock gives a reading of which it is the time.
pub closed spec fn clock_gives(at: u64) -> bool {
    exists|millis: Option<u128>| #[trigger]
        call_ensures(clock_millis, (), millis) && at == record_time(millis)
}

/// The time now, as a record holds it.
fn now_ms() -> (r: u64)
    ensures
        clock_gives(r),
{
    let millis: Option<u128> = clock_millis();
    assert(call_ensures(clock_millis, (), millis));
    record_millis(millis)
}

/// The time that a record holds is that of a reading of the clock, to the millisecond.
proof fn law_recorded_times_are_read_from_the_clock(at: u64)
    requires
        clock_gives(at),
    ensures
        exists|millis: Option<u128>| #[trigger]
            call_ensures(clock_millis, (), millis) && match millis {
                Some(ms) => ms <= u64::MAX ==> at == ms,
                None => at == 0,
            },
{
    let millis = choose|millis: Option<u128>| #[trigger]
        call_ensures(clock_millis, (), millis) && at == record_time(millis);
    if let Some(ms) = millis {
        if ms <= u64::MAX {
            vstd::arithmetic::div_mod::lemma_small_mod(ms as nat, 0x1_0000_0000_0000_0000nat);
        }
    }
}

/// The history after one more rename.
pub open spec fn recorded(
    history: Seq<config::RecordView>,
    record: config::RecordView,
) -> Seq<config::RecordView> {
    let longer = seq![record] + history;
    if longer.len() > HISTORY_LIMIT {
        longer.take(HISTORY_LIMIT as int)
    } else {
        longer
    }
}

impl EngineState {
    /// Notes a rename that was made at a given time.
    pub fn record_rename_at(&mut self, at: u64, dir: String, from: String, to: String) -> (r:
        RenameRecord)
        ensures
            r@ == (config::RecordView { at, dir: dir@, from: from@, to: to@ }),
            final(self)@ == (EngineView { history: recorded(old(self)@.history, r@), ..old(self)@ }),
            old(self).wf() ==> final(self).wf(),
            final(self).history@.len() <= HISTORY_LIMIT,
    {
        let record = RenameRecord { at, dir, from, to };
        self.history.insert(0, record.clone());
        assert(config::record_views(self.history@) =~= seq![record@] + old(self)@.history);
        self.history.truncate(HISTORY_LIMIT);
        assert(config::record_views(self.history@) =~= recorded(old(self)@.history, record@));
        record
    }

    /// Notes a rename that was made just now.
    pub fn record_rename(&mut self, dir: String, from: String, to: String) -> (r: RenameRecord)
        ensures
            r@ == (config::RecordView { at: r.at, dir: dir@, from: from@, to: to@ }),
            clock_gives(r.at),
            final(self)@ == (EngineView { history: recorded(old(self)@.history, r@), ..old(self)@ }),
            old(self).wf() ==> final(self).wf(),
            final(self).history@.len() <= HISTORY_LIMIT,
    {
        self.record_rename_at(now_ms(), dir, from, to)
    }
}

/// A watched folder, by the path it is.
pub struct ScopeRoot {
    pub root: PathParts,
    pub recursive: bool,
}

pub struct RootView {
    pub root: Seq<Part>,
    pub recursive: bool,
}

impl View for ScopeRoot {
    type V = RootView;

    open spec fn view(&self) -> RootView {
        RootView { root: self.root@, recursive: self.recursive }
    }
}

pub open spec fn root_views(roots: Seq<ScopeRoot>) -> Seq<RootView> {
    roots.map_values(|r: ScopeRoot| r@)
}

/// The roots are those of the folders, one for one: what the platform makes of each path.
pub open spec fn roots_of(folders: Seq<config::FolderView>, roots: Seq<RootView>) -> bool {
    &&& roots.len() == folders.len()
    &&& forall|i: int|
        #![trigger roots[i]]
        0 <= i < roots.len() ==> {
            &&& roots[i].recursive == folders[i].recursive
            &&& paths::is_split_of(folders[i].path, roots[i].root)
        }
}

/// The folder is responsible for the path: a recursive one for all that lies below it, another
/// one for its direct children only.
pub open spec fn covers(root: RootView, path: Seq<Part>) -> bool {
    if root.recursive {
        paths::is_below(path, root.root)
    } else {
        paths::parent_of(path) == Some(root.root)
    }
}

pub open spec fn in_scope(roots: Seq<RootView>, path: Seq<Part>) -> bool {
    exists|i: int| 0 <= i < roots.len() && covers(#[trigger] roots[i], path)
}

/// A recursive folder is responsible for the path.
pub open spec fn in_deep_scope(roots: Seq<RootView>, path: Seq<Part>) -> bool {
    exists|i: int|
        0 <= i < roots.len() && (#[trigger] roots[i]).recursive && covers(roots[i], path)
}

/// The paths of the watched folders.
pub fn scope_roots(folders: &Vec<WatchedFolder>) -> (r: Vec<ScopeRoot>)
    ensures
        roots_of(config::folder_views(folders@), root_views(r@)),
{
    let mut out: Vec<ScopeRoot> = Vec::new();
    let mut i: usize = 0;
    while i < folders.len()
        invariant
            i <= folders@.len(),
            out@.len() == i,
            forall|k: int|
                #![trigger out@[k]]
                0 <= k < i ==> {
                    &&& out@[k].recursive == folders@[k].recursive
                    &&& paths::is_split_of(folders@[k].path@, out@[k].root@)
                },
        decreases folders@.len() - i,
    {
        out.push(
            ScopeRoot {
                root: PathParts::from_text(folders[i].path.as_str()),
                recursive: folders[i].recursive,
            },
        );
        i = i + 1;
    }
    out
}

fn root_covers(root: &ScopeRoot, path: &PathParts) -> (r: bool)
    ensures
        r == covers(root@, path@),
{
    if root.recursive {
        path.starts_with(&root.root) && !path.same(&root.root)
    } else {
        path.has_parent(&root.root)
    }
}

/// Whether one of the folders is responsible for the path. (Watching reports whatever happens
/// below a folder on some platforms, also for folders that are not recursive.)
pub fn is_in_scope(roots: &Vec<ScopeRoot>, path: &PathParts) -> (r: bool)
    ensures
        r == in_scope(root_views(roots@), path@),
{
    let mut i: usize = 0;
    while i < roots.len()
        invariant
            i <= roots@.len(),
            forall|k: int| 0 <= k < i ==> !covers(#[trigger] root_views(roots@)[k], path@),
        decreases roots@.len() - i,
    {
        assert(root_views(roots@)[i as int] == roots@[i as int]@);
        if root_covers(&roots[i], path) {
            return true;
        }
        i = i + 1;
    }
    false
}

/// Whether one of the recursive folders is responsible for the path.
pub fn is_in_deep_scope(roots: &Vec<ScopeRoot>, path: &PathParts) -> (r: bool)
    ensures
        r == in_deep_scope(root_views(roots@), path@),
{
    let mut i: usize = 0;
    while i < roots.len()
        invariant
            i <= roots@.len(),
            forall|k: int|
                0 <= k < i ==> !((#[trigger] root_views(roots@)[k]).recursive && covers(
                    root_views(roots@)[k],
                    path@,
                )),
        decreases roots@.len() - i,
    {
        assert(root_views(roots@)[i as int] == roots@[i as int]@);
        if roots[i].recursive && root_covers(&roots[i], path) {
            return true;
        }
        i = i + 1;
    }
    false
}

/// A path on its way through the attempts to rename it.
pub struct PathJob {
    pub path: PathParts,
    /// A recursive folder is responsible for the path, so that a renamed directory is scanned.
    pub deep: bool,
    /// How many attempts have failed.
    pub attempt: u32,
}

pub struct PathJobView {
    pub path: Seq<Part>,
    pub deep: bool,
    pub attempt: nat,
}

impl View for PathJob {
    type V = PathJobView;

    open spec fn view(&self) -> PathJobView {
        PathJobView { path: self.path@, deep: self.deep, attempt: self.attempt as nat }
    }
}

/// What an attempt to rename a file came to.
pub enum Attempt {
    /// There was nothing to rename.
    Unchanged,
    /// The file of this directory was renamed from one name to another.
    Renamed(String, String, String),
    Failed,
}

/// What a rename job came to, for a file of the directory `dir`.
pub fn attempt_of<E>(dir: String, outcome: Outcome<E>) -> (r: Attempt)
    ensures
        r@ == attempt_view(dir@, rename::outcome_view(outcome)),
{
    match outcome {
        Ok(Some((from, to))) => Attempt::Renamed(dir, from, to),
        Ok(None) => Attempt::Unchanged,
        Err(_) => Attempt::Failed,
    }
}

pub open spec fn attempt_view<E>(dir: Seq<char>, outcome: rename::OutcomeView<E>) -> AttemptView {
    match outcome {
        Ok(Some((from, to))) => AttemptView::Renamed(dir, from, to),
        Ok(None) => AttemptView::Unchanged,
        Err(_) => AttemptView::Failed,
    }
}

/// What to do after an attempt.
pub enum PathStep {
    Stop,
    /// Tell of the rename; then, where so marked and the renamed file is a directory, scan it with
    /// all that is below.
    Recorded(RenameRecord, bool),
    /// Wait for `RETRY_DELAY_SECS`, then try again.
    Retry(PathJob),
}

/// Whether a path is taken up, and how, given the paths of the watched folders.
pub open spec fn taken_up(e: EngineView, roots: Seq<RootView>, path: Seq<Part>) -> Option<
    PathJobView,
> {
    if e.enabled && in_scope(roots, path) && !e.failed.contains(path) {
        Some(PathJobView { path, deep: in_deep_scope(roots, path), attempt: 0 })
    } else {
        None
    }
}

/// The paths that are not tried again, after one more could not be renamed.
pub open spec fn given_up(failed: Set<Seq<Part>>, path: Seq<Part>) -> Set<Seq<Part>> {
    failed.insert(path)
}

impl EngineState {
    /// Whether the path is remembered as impossible to rename.
    pub fn has_failed(&self, path: &PathParts) -> (r: bool)
        ensures
            r == self@.failed.contains(path@),
    {
        let mut i: usize = 0;
        while i < self.failed.len()
            invariant
                i <= self.failed@.len(),
                forall|k: int| 0 <= k < i ==> #[trigger] path_views(self.failed@)[k] != path@,
            decreases self.failed@.len() - i,
        {
            assert(path_views(self.failed@)[i as int] == self.failed@[i as int]@);
            if self.failed[i].same(path) {
                assert(path_views(self.failed@).contains(path@));
                return true;
            }
            i = i + 1;
        }
        assert(!path_views(self.failed@).contains(path@));
        false
    }

    /// Takes up a path, given the paths of the watched folders.
    pub fn take_up_with(&self, roots: &Vec<ScopeRoot>, path: PathParts) -> (r: Option<PathJob>)
        ensures
            match r {
                Some(job) => taken_up(self@, root_views(roots@), path@) == Some(job@),
                None => taken_up(self@, root_views(roots@), path@) is None,
            },
    {
        if !self.enabled || !is_in_scope(roots, &path) || self.has_failed(&path) {
            return None;
        }
        let deep = is_in_deep_scope(roots, &path);
        Some(PathJob { path, deep, attempt: 0 })
    }

    /// Takes up a path that was reported, unless renaming is switched off, no watched folder is
    /// responsible for it, or it is remembered as impossible to rename.
    pub fn take_up(&self, path: PathParts) -> (r: Option<PathJob>)
        ensures
            exists|roots: Seq<RootView>| #[trigger]
                roots_of(self@.config.folders, roots) && taken_up(self@, roots, path@) == (match r {
                    Some(job) => Some(job@),
                    None => None,
                }),
    {
        let roots: Vec<ScopeRoot> = scope_roots(&self.config.folders);
        let r = self.take_up_with(&roots, path);
        assert(roots_of(self@.config.folders, root_views(roots@)));
        r
    }

    fn give_up(&mut self, path: PathParts)
        ensures
            old(self).wf() ==> final(self).wf(),
            final(self)@ == (EngineView { failed: given_up(old(self)@.failed, path@), ..old(self)@ }),
    {
        let ghost before = path_views(self.failed@);
        if !self.has_failed(&path) {
            self.failed.push(path);
            assert(path_views(self.failed@) =~= before.push(path@));
            assert forall|p: Seq<Part>|
                before.push(path@).contains(p) == (before.contains(p) || p == path@) by {
                broadcast use vstd::seq_lib::group_seq_properties;

            }
            assert(before.push(path@).to_set() =~= before.to_set().insert(path@));
        } else {
            assert(before.to_set().insert(path@) =~= before.to_set());
        }
    }

    /// Goes on after an attempt: a rename is noted; a failure is tried again until the attempts
    /// are used up, and then remembered.
    pub fn process_path_at(&mut self, at: u64, job: PathJob, attempt: Attempt) -> (r: PathStep)
        ensures
            old(self).wf() ==> final(self).wf(),
            processed(old(self)@, at, job@, attempt@) == (final(self)@, r@),
    {
        match attempt {
            Attempt::Unchanged => PathStep::Stop,
            Attempt::Renamed(dir, from, to) => {
                let record = self.record_rename_at(at, dir, from, to);
                PathStep::Recorded(record, job.deep)
            },
            Attempt::Failed => {
                if job.attempt < ATTEMPTS - 1 {
                    PathStep::Retry(PathJob { attempt: job.attempt + 1, ..job })
                } else {
                    self.give_up(job.path);
                    PathStep::Stop
                }
            },
        }
    }

    /// Goes on after an attempt that was made just now.
    pub fn process_path(&mut self, job: PathJob, attempt: Attempt) -> (r: PathStep)
        ensures
            old(self).wf() ==> final(self).wf(),
            exists|at: u64|
                clock_gives(at) && #[trigger] processed(old(self)@, at, job@, attempt@) == (
                    final(self)@,
                    r@,
                ),
    {
        let at: u64 = now_ms();
        self.process_path_at(at, job, attempt)
    }
}

pub enum AttemptView {
    Unchanged,
    Renamed(Seq<char>, Seq<char>, Seq<char>),
    Failed,
}

pub enum PathStepView {
    Stop,
    Recorded(config::RecordView, bool),
    Retry(PathJobView),
}

impl View for Attempt {
    type V = AttemptView;

    open spec fn view(&self) -> AttemptView {
        match *self {
            Attempt::Unchanged => AttemptView::Unchanged,
            Attempt::Renamed(dir, from, to) => AttemptView::Renamed(dir@, from@, to@),
            Attempt::Failed => AttemptView::Failed,
        }
    }
}

impl View for PathStep {
    type V = PathStepView;

    open spec fn view(&self) -> PathStepView {
        match *self {
            PathStep::Stop => PathStepView::Stop,
            PathStep::Recorded(record, deep) => PathStepView::Recorded(record@, deep),
            PathStep::Retry(job) => PathStepView::Retry(job@),
        }
    }
}

/// The state after an attempt that ended at a given time, and what to do next.
pub open spec fn processed(e: EngineView, at: u64, job: PathJobView, attempt: AttemptView) -> (
    EngineView,
    PathStepView,
) {
    match attempt {
        AttemptView::Unchanged => (e, PathStepView::Stop),
        AttemptView::Renamed(dir, from, to) => {
            let record = config::RecordView { at, dir, from, to };
            (
                EngineView { history: recorded(e.history, record), ..e },
                PathStepView::Recorded(record, job.deep),
            )
        },
        AttemptView::Failed => if job.attempt < ATTEMPTS - 1 {
            (e, PathStepView::Retry(PathJobView { attempt: job.attempt + 1, ..job }))
        } else {
            (EngineView { failed: given_up(e.failed, job.path), ..e }, PathStepView::Stop)
        },
    }
}

/// How a folder is walked: the folder itself is left out, and what is in a folder comes before the
/// folder, so that renaming it does not turn the other paths stale.
pub struct ScanPlan {
    pub min_depth: usize,
    pub max_depth: usize,
    pub contents_first: bool,
}

/// How to walk a folder that is scanned.
pub fn scan_dir(recursive: bool) -> (r: ScanPlan)
    ensures
        r.min_depth == 1,
        r.max_depth == (if recursive {
            usize::MAX
        } else {
            1
        }),
        r.contents_first,
{
    ScanPlan {
        min_depth: 1,
        max_depth: if recursive {
            usize::MAX
        } else {
            1
        },
        contents_first: true,
    }
}

/// A scan looks at entries of this name (where it is text), in whatever folder they are: not at
/// hidden ones.
pub open spec fn is_visible(name: Option<Seq<char>>) -> bool {
    match name {
        Some(n) => !(n.len() > 0 && n[0] == '.'),
        None => false,
    }
}

/// Whether a scan looks at entries of this name.
pub fn is_scanned(name: Option<&str>) -> (r: bool)
    ensures
        r == is_visible(
            match name {
                Some(n) => Some(n@),
                None => None,
            },
        ),
{
    match name {
        Some(n) => {
            let chars: Vec<char> = text::text_chars(n);
            !(chars.len() > 0 && chars[0] == '.')
        },
        None => false,
    }
}

/// The state, the count of renames and the rename to tell of, after an entry of a scan.
pub open spec fn scanned(e: EngineView, at: u64, count: nat, attempt: AttemptView) -> (
    EngineView,
    nat,
    Option<config::RecordView>,
) {
    match attempt {
        AttemptView::Renamed(dir, from, to) => {
            let record = config::RecordView { at, dir, from, to };
            (
                EngineView { history: recorded(e.history, record), ..e },
                count + 1,
                Some(record),
            )
        },
        _ => (e, count, None),
    }
}

pub open spec fn opt_record(r: Option<RenameRecord>) -> Option<config::RecordView> {
    match r {
        Some(record) => Some(record@),
        None => None,
    }
}

/// The sum of the numbers.
pub open spec fn sum_of(counts: Seq<usize>) -> nat
    decreases counts.len(),
{
    if counts.len() == 0 {
        0
    } else {
        sum_of(counts.drop_last()) + counts.last() as nat
    }
}

proof fn lemma_sum_grows(counts: Seq<usize>, n: int)
    requires
        0 <= n <= counts.len(),
    ensures
        sum_of(counts.take(n)) <= sum_of(counts),
    decreases counts.len(),
{
    if n < counts.len() {
        lemma_sum_grows(counts.drop_last(), n);
        assert(counts.drop_last().take(n) =~= counts.take(n));
    } else {
        assert(counts.take(n) =~= counts);
    }
}

/// How many files a scan of several folders renamed.
pub fn scan_total(counts: &Vec<usize>) -> (r: usize)
    requires
        sum_of(counts@) <= usize::MAX,
    ensures
        r == sum_of(counts@),
{
    let mut total: usize = 0;
    let mut i: usize = 0;
    while i < counts.len()
        invariant
            i <= counts@.len(),
            total == sum_of(counts@.take(i as int)),
            sum_of(counts@) <= usize::MAX,
        decreases counts@.len() - i,
    {
        assert(counts@.take(i + 1).drop_last() =~= counts@.take(i as int));
        proof {
            lemma_sum_grows(counts@, i + 1);
        }
        total = total + counts[i];
        i = i + 1;
    }
    assert(counts@.take(i as int) =~= counts@);
    total
}

impl EngineState {
    /// Takes note of what an entry of a scan came to.
    pub fn scan_entry_at(&mut self, at: u64, count: usize, attempt: Attempt) -> (r: (
        usize,
        Option<RenameRecord>,
    ))
        requires
            attempt@ is Renamed ==> count < usize::MAX,
        ensures
            scanned(old(self)@, at, count as nat, attempt@) == (
                final(self)@,
                r.0 as nat,
                opt_record(r.1),
            ),
            old(self).wf() ==> final(self).wf(),
    {
        match attempt {
            Attempt::Renamed(dir, from, to) => {
                let record = self.record_rename_at(at, dir, from, to);
                (count + 1, Some(record))
            },
            _ => (count, None),
        }
    }

    /// Takes note of what an entry of a scan came to just now.
    pub fn scan_entry(&mut self, count: usize, attempt: Attempt) -> (r: (
        usize,
        Option<RenameRecord>,
    ))
        requires
            attempt@ is Renamed ==> count < usize::MAX,
        ensures
            exists|at: u64|
                clock_gives(at) && #[trigger] scanned(old(self)@, at, count as nat, attempt@) == (
                    final(self)@,
                    r.0 as nat,
                    opt_record(r.1),
                ),
            old(self).wf() ==> final(self).wf(),
    {
        let at: u64 = now_ms();
        self.scan_entry_at(at, count, attempt)
    }

    /// Starts a scan of all watched folders, which gives every remembered path a new chance.
    pub fn scan_all(&mut self) -> (r: Vec<WatchedFolder>)
        ensures
            config::folder_views(r@) == old(self)@.config.folders,
            final(self)@ == (EngineView { failed: Set::empty(), ..old(self)@ }),
            old(self).wf() ==> final(self).wf(),
    {
        self.failed.clear();
        assert(path_views(self.failed@).to_set() =~= Set::empty());
        let r: Vec<WatchedFolder> = self.config.folders.clone();
        assert(r@ =~= self.config.folders@);
        r
    }
}

/// How much of a folder the file system is asked to watch.
#[derive(Debug, Clone, Copy, PartialEq, Eq, Structural)]
pub enum WatchMode {
    Recursive,
    NonRecursive,
}

/// A folder to watch.
pub struct WatchRequest {
    pub path: String,
    pub mode: WatchMode,
}

pub struct WatchView {
    pub path: Seq<char>,
    pub mode: WatchMode,
}

impl View for WatchRequest {
    type V = WatchView;

    open spec fn view(&self) -> WatchView {
        WatchView { path: self.path@, mode: self.mode }
    }
}

pub open spec fn watch_view(folder: config::FolderView) -> WatchView {
    WatchView {
        path: folder.path,
        mode: if folder.recursive {
            WatchMode::Recursive
        } else {
            WatchMode::NonRecursive
        },
    }
}

pub open spec fn watch_views(requests: Seq<WatchRequest>) -> Seq<WatchView> {
    requests.map_values(|w: WatchRequest| w@)
}

/// What to watch once the old watcher is gone, one request for every folder in their order. With
/// no folder there is nothing to watch, and no watcher is made.
pub fn rebuild_watcher(folders: &Vec<WatchedFolder>) -> (r: Vec<WatchRequest>)
    ensures
        watch_views(r@) == config::folder_views(folders@).map_values(
            |f: config::FolderView| watch_view(f),
        ),
{
    let mut out: Vec<WatchRequest> = Vec::new();
    let mut i: usize = 0;
    while i < folders.len()
        invariant
            i <= folders@.len(),
            out@.len() == i,
            forall|k: int| 0 <= k < i ==> (#[trigger] out@[k])@ == watch_view(folders@[k]@),
        decreases folders@.len() - i,
    {
        let mode = if folders[i].recursive {
            WatchMode::Recursive
        } else {
            WatchMode::NonRecursive
        };
        out.push(WatchRequest { path: folders[i].path.clone(), mode });
        i = i + 1;
    }
    assert(watch_views(out@) =~= config::folder_views(folders@).map_values(
        |f: config::FolderView| watch_view(f),
    ));
    out
}

/// What a watcher reports to have happened.
#[derive(Debug, Clone, Copy, PartialEq, Eq, Structural)]
pub enum ChangeKind {
    Any,
    Access,
    Create,
    Modify,
    Remove,
    Other,
}

/// A file may have come to bear a name by this.
pub open spec fn may_name(kind: ChangeKind) -> bool {
    kind is Create || kind is Modify || kind is Any
}

/// The paths of a report that are handed on to be processed.
pub fn queued_paths<P>(kind: ChangeKind, paths: Vec<P>) -> (r: Vec<P>)
    ensures
        r@ == (if may_name(kind) {
            paths@
        } else {
            seq![]
        }),
{
    match kind {
        ChangeKind::Create | ChangeKind::Modify | ChangeKind::Any => paths,
        _ => Vec::new(),
    }
}

/// A path whose last attempt ended in an error, whatever it was, is not taken up again, whatever
/// folders are watched; this ends with the next scan of all folders.
pub proof fn law_given_up_paths_are_not_taken_up<E>(
    e: EngineView,
    at: u64,
    job: PathJobView,
    dir: Seq<char>,
    error: rename::RenameError<E>,
    roots: Seq<RootView>,
)
    requires
        job.attempt >= ATTEMPTS - 1,
    ensures
        ({
            let after = processed(e, at, job, attempt_view::<E>(dir, Err(error))).0;
            &&& taken_up(after, roots, job.path) is None
            &&& taken_up(EngineView { failed: Set::empty(), ..after }, roots, job.path) is Some
                <==> e.enabled && in_scope(roots, job.path)
        }),
{
}

/// A path that was given up stays so whatever happens to other paths, and whatever is scanned.
pub proof fn law_given_up_paths_stay_so(
    e: EngineView,
    at: u64,
    count: nat,
    job: PathJobView,
    attempt: AttemptView,
    path: Seq<Part>,
)
    requires
        e.failed.contains(path),
    ensures
        processed(e, at, job, attempt).0.failed.contains(path),
        scanned(e, at, count, attempt).0.failed.contains(path),
{
}

/// A path that keeps failing is tried three times, and then stopped.
pub proof fn law_three_attempts(e: EngineView, at: u64, roots: Seq<RootView>, path: Seq<Part>)
    requires
        taken_up(e, roots, path) is Some,
    ensures
        ({
            let first = taken_up(e, roots, path).unwrap();
            let second = PathJobView { attempt: 1, ..first };
            let third = PathJobView { attempt: 2, ..first };
            &&& processed(e, at, first, AttemptView::Failed) == (e, PathStepView::Retry(second))
            &&& processed(e, at, second, AttemptView::Failed) == (e, PathStepView::Retry(third))
            &&& processed(e, at, third, AttemptView::Failed) == (
                EngineView { failed: given_up(e.failed, path), ..e },
                PathStepView::Stop,
            )
        }),
{
}

/// Nothing is taken up while renaming is switched off.
pub proof fn law_nothing_while_disabled(e: EngineView, roots: Seq<RootView>, path: Seq<Part>)
    requires
        !e.enabled,
    ensures
        taken_up(e, roots, path) is None,
{
}

/// No folder is responsible for itself, and what lies deeper than its direct children is outside
/// a folder that is not recursive.
pub proof fn law_scope_bounds(root: RootView, path: Seq<Part>)
    ensures
        !covers(root, root.root),
        covers(root, path) ==> path.len() > root.root.len() && root.root.is_prefix_of(path),
        covers(root, path) && !root.recursive ==> path.len() == root.root.len() + 1,
{
    if covers(root, path) {
        if root.recursive {
            if path.len() == root.root.len() {
                assert(path =~= root.root);
            }
        } else {
            assert(root.root =~= path.subrange(0, root.root.len() as int));
        }
    }
}

/// A folder that is made recursive loses none of the paths it was responsible for.
pub proof fn law_recursive_covers_more(root: Seq<Part>, path: Seq<Part>)
    requires
        covers(RootView { root, recursive: false }, path),
    ensures
        covers(RootView { root, recursive: true }, path),
{
    law_scope_bounds(RootView { root, recursive: false }, path);
}

/// The latest rename comes first, the ones before keep their order, and the history never grows
/// beyond its limit.
pub proof fn law_history_is_bounded(
    history: Seq<config::RecordView>,
    record: config::RecordView,
)
    ensures
        recorded(history, record).len() <= HISTORY_LIMIT,
        recorded(history, record)[0] == record,
        forall|i: int|
            1 <= i < recorded(history, record).len() ==> recorded(history, record)[i] == history[i
                - 1],
        history.len() < HISTORY_LIMIT ==> recorded(history, record).len() == history.len() + 1,
{
}

/// The state and the count after the entries of a scan, each noted at its time.
pub open spec fn scanned_all(e: EngineView, attempts: Seq<(u64, AttemptView)>) -> (EngineView, nat)
    decreases attempts.len(),
{
    if attempts.len() == 0 {
        (e, 0)
    } else {
        let (before, count) = scanned_all(e, attempts.drop_last());
        let (after, total, _) = scanned(before, attempts.last().0, count, attempts.last().1);
        (after, total)
    }
}

/// A scan counts exactly the renames, and changes nothing but the history.
pub proof fn law_scan_counts_renames(e: EngineView, attempts: Seq<(u64, AttemptView)>)
    ensures
        scanned_all(e, attempts).1 == attempts.filter(|a: (u64, AttemptView)| a.1 is Renamed).len(),
        scanned_all(e, attempts).0 == (EngineView {
            history: scanned_all(e, attempts).0.history,
            ..e
        }),
    decreases attempts.len(),
{
    if attempts.len() > 0 {
        law_scan_counts_renames(e, attempts.drop_last());
        assert(attempts =~= attempts.drop_last().push(attempts.last()));
        attempts.drop_last().lemma_filter_len_push(
            |a: (u64, AttemptView)| a.1 is Renamed,
            attempts.last(),
        );
    } else {
        reveal(Seq::filter);
    }
}

} // verus!
