//! What comes of an attempt to rename a file: the history, the paths that are given up, and what is
//! done next.
use crate::config::{RenameRecord, WatchedFolder};
use crate::config;
use crate::engine::{
    Attempt, ChangeKind, EngineState, PathJob, PathStep, ScanPlan, WatchMode, WatchRequest,
    RETRY_DELAY_SECS,
};
use crate::engine;
use crate::guarantees::places;
use crate::paths::PathParts;
use crate::rename::Outcome;
use vstd::prelude::*;
use vstd::string::*;

verus! {

/// The record is that of a rename at this time, in this directory, between these names.
pub open spec fn tells(
    record: RenameRecord,
    at: u64,
    dir: String,
    from: String,
    to: String,
) -> bool {
    &&& record.at == at
    &&& record.dir@ == dir@
    &&& record.from@ == from@
    &&& record.to@ == to@
}

pub open spec fn same_record(a: RenameRecord, b: RenameRecord) -> bool {
    tells(a, b.at, b.dir, b.from, b.to)
}

pub open spec fn same_folder(a: WatchedFolder, b: WatchedFolder) -> bool {
    a.path@ == b.path@ && a.recursive == b.recursive
}

/// The histories hold the same records in the same order.
pub open spec fn same_history(a: EngineState, b: EngineState) -> bool {
    &&& a.history@.len() == b.history@.len()
    &&& forall|i: int|
        0 <= i < a.history@.len() ==> same_record(#[trigger] a.history@[i], b.history@[i])
}

/// The new record comes first, the ones before it follow in their order, and of those as many are
/// kept as make three hundred together.
pub open spec fn has_one_more(before: EngineState, after: EngineState) -> bool {
    &&& after.history@.len() == (if before.history@.len() < 300 {
        before.history@.len() + 1
    } else {
        300
    })
    &&& forall|i: int|
        1 <= i < after.history@.len() ==> same_record(
            #[trigger] after.history@[i],
            before.history@[i - 1],
        )
}

/// The settings, and whether renaming is switched on, are the same.
pub open spec fn same_settings(a: EngineState, b: EngineState) -> bool {
    &&& a.enabled == b.enabled
    &&& a.config.enabled == b.config.enabled
    &&& a.config.folders@.len() == b.config.folders@.len()
    &&& forall|i: int|
        0 <= i < a.config.folders@.len() ==> same_folder(
            #[trigger] a.config.folders@[i],
            b.config.folders@[i],
        )
}

/// The same paths were given up.
pub open spec fn same_given_up(a: EngineState, b: EngineState) -> bool {
    forall|path: PathParts| #[trigger] places::gave_up(a, path) == places::gave_up(b, path)
}

/// Nothing was changed.
pub open spec fn same_state(a: EngineState, b: EngineState) -> bool {
    same_history(a, b) && same_settings(a, b) && same_given_up(a, b)
}

pub proof fn lemma_same_settings(a: EngineState, b: EngineState)
    requires
        a@.enabled == b@.enabled,
        a@.config == b@.config,
    ensures
        same_settings(a, b),
{
    assert(a@.config.folders.len() == a.config.folders@.len());
    assert forall|i: int| 0 <= i < a.config.folders@.len() implies same_folder(
        #[trigger] a.config.folders@[i],
        b.config.folders@[i],
    ) by {
        assert(a@.config.folders[i] == a.config.folders@[i]@);
        assert(b@.config.folders[i] == b.config.folders@[i]@);
    }
}

pub proof fn lemma_same_given_up(a: EngineState, b: EngineState)
    requires
        a@.failed == b@.failed,
    ensures
        same_given_up(a, b),
{
    assert forall|path: PathParts| #[trigger] places::gave_up(a, path) == places::gave_up(
        b,
        path,
    ) by {
        places::lemma_gave_up(a, path);
        places::lemma_gave_up(b, path);
    }
}

pub proof fn lemma_same_history(a: EngineState, b: EngineState)
    requires
        a@.history == b@.history,
    ensures
        same_history(a, b),
{
    assert(a@.history.len() == a.history@.len());
    assert forall|i: int| 0 <= i < a.history@.len() implies same_record(
        #[trigger] a.history@[i],
        b.history@[i],
    ) by {
        assert(a@.history[i] == a.history@[i]@);
        assert(b@.history[i] == b.history@[i]@);
    }
}

pub proof fn lemma_same_state(a: EngineState, b: EngineState)
    requires
        a@ == b@,
    ensures
        same_state(a, b),
{
    lemma_same_settings(a, b);
    lemma_same_given_up(a, b);
    lemma_same_history(a, b);
}

proof fn lemma_one_more(
    a: EngineState,
    b: EngineState,
    at: u64,
    dir: String,
    from: String,
    to: String,
)
    requires
        b@ == (engine::EngineView {
            history: engine::recorded(
                a@.history,
                config::RecordView { at, dir: dir@, from: from@, to: to@ },
            ),
            ..a@
        }),
    ensures
        b.history@.len() > 0,
        tells(b.history@[0], at, dir, from, to),
        has_one_more(a, b),
        same_settings(a, b),
        same_given_up(a, b),
{
    lemma_same_settings(a, b);
    lemma_same_given_up(a, b);
    assert(a@.history.len() == a.history@.len());
    assert(b@.history.len() == b.history@.len());
    assert(b@.history[0] == b.history@[0]@);
    assert forall|i: int| 1 <= i < b.history@.len() implies same_record(
        #[trigger] b.history@[i],
        a.history@[i - 1],
    ) by {
        assert(b@.history[i] == b.history@[i]@);
        assert(a@.history[i - 1] == a.history@[i - 1]@);
    }
}

/// A rename that is noted comes first in the history, just as it was made; nothing else changes.
pub proof fn law_noted_renames_come_first(
    e: &mut EngineState,
    at: u64,
    dir: String,
    from: String,
    to: String,
    r: RenameRecord,
)
    requires
        call_ensures(EngineState::record_rename_at, (e, at, dir, from, to), r),
    ensures
        old(e).wf() ==> final(e).wf(),
        tells(r, at, dir, from, to),
        final(e).history@.len() > 0,
        tells(final(e).history@[0], at, dir, from, to),
        has_one_more(*old(e), *final(e)),
        same_settings(*old(e), *final(e)),
        same_given_up(*old(e), *final(e)),
{
    lemma_one_more(*old(e), *final(e), at, dir, from, to);
}

/// A rename that is noted just now holds the time that the clock gives.
pub proof fn law_renames_are_noted_at_their_time(
    e: &mut EngineState,
    dir: String,
    from: String,
    to: String,
    r: RenameRecord,
)
    requires
        call_ensures(EngineState::record_rename, (e, dir, from, to), r),
    ensures
        old(e).wf() ==> final(e).wf(),
        engine::clock_gives(r.at),
        tells(r, r.at, dir, from, to),
        final(e).history@.len() > 0,
        tells(final(e).history@[0], r.at, dir, from, to),
        has_one_more(*old(e), *final(e)),
        same_settings(*old(e), *final(e)),
        same_given_up(*old(e), *final(e)),
{
    lemma_one_more(*old(e), *final(e), r.at, dir, from, to);
}

/// A record holds the milliseconds of the clock, as far as they fit; a clock that is before its
/// epoch counts as zero.
pub proof fn law_times_are_milliseconds(millis: Option<u128>, r: u64)
    requires
        call_ensures(engine::record_millis, (millis,), r),
    ensures
        millis is None ==> r == 0,
        millis matches Some(ms) ==> {
            &&& ms <= u64::MAX ==> r == ms
            &&& (ms - r) % 0x1_0000_0000_0000_0000 == 0
        },
{
    if let Some(ms) = millis {
        let m: int = 0x1_0000_0000_0000_0000;
        let a = ms as int;
        assert(r == a % m);
        assert((a - a % m) % m == 0) by {
            vstd::arithmetic::div_mod::lemma_fundamental_div_mod(a, m);
            vstd::arithmetic::div_mod::lemma_mod_multiples_basic(a / m, m);
            vstd::arithmetic::mul::lemma_mul_is_commutative(a / m, m);
        }
        if a < m {
            vstd::arithmetic::div_mod::lemma_small_mod(a as nat, m as nat);
        }
    }
}

/// Whatever the number of the attempt, one that renamed the file is recorded: the record comes
/// first in the history, and is handed on with the mark of the job. Nothing else changes.
pub proof fn law_successful_attempts_are_recorded(
    e: &mut EngineState,
    at: u64,
    job: PathJob,
    dir: String,
    from: String,
    to: String,
    r: PathStep,
)
    requires
        call_ensures(
            EngineState::process_path_at,
            (e, at, job, Attempt::Renamed(dir, from, to)),
            r,
        ),
    ensures
        old(e).wf() ==> final(e).wf(),
        r matches PathStep::Recorded(record, deep) && deep == job.deep && tells(
            record,
            at,
            dir,
            from,
            to,
        ),
        final(e).history@.len() > 0,
        tells(final(e).history@[0], at, dir, from, to),
        has_one_more(*old(e), *final(e)),
        same_settings(*old(e), *final(e)),
        same_given_up(*old(e), *final(e)),
{
    lemma_one_more(*old(e), *final(e), at, dir, from, to);
}

/// The same of an attempt that was made just now; the time is what the clock gives.
pub proof fn law_successful_attempts_are_recorded_at_their_time(
    e: &mut EngineState,
    job: PathJob,
    dir: String,
    from: String,
    to: String,
    r: PathStep,
)
    requires
        call_ensures(EngineState::process_path, (e, job, Attempt::Renamed(dir, from, to)), r),
    ensures
        old(e).wf() ==> final(e).wf(),
        r matches PathStep::Recorded(record, deep) && {
            &&& deep == job.deep
            &&& engine::clock_gives(record.at)
            &&& tells(record, record.at, dir, from, to)
            &&& final(e).history@.len() > 0
            &&& tells(final(e).history@[0], record.at, dir, from, to)
        },
        has_one_more(*old(e), *final(e)),
        same_settings(*old(e), *final(e)),
        same_given_up(*old(e), *final(e)),
{
    let at = choose|at: u64|
        engine::clock_gives(at) && #[trigger] engine::processed(
            old(e)@,
            at,
            job@,
            Attempt::Renamed(dir, from, to)@,
        ) == (final(e)@, r@);
    lemma_one_more(*old(e), *final(e), at, dir, from, to);
}

/// An attempt that found nothing to rename ends the matter and changes nothing.
pub proof fn law_idle_attempts_change_nothing(
    e: &mut EngineState,
    at: u64,
    job: PathJob,
    r: PathStep,
)
    requires
        call_ensures(EngineState::process_path_at, (e, at, job, Attempt::Unchanged), r),
    ensures
        old(e).wf() ==> final(e).wf(),
        r is Stop,
        same_state(*old(e), *final(e)),
{
    assert(old(e)@ == final(e)@);
    lemma_same_state(*old(e), *final(e));
}

/// The first and the second failure change nothing, and the same path is tried again after a
/// second.
pub proof fn law_failures_are_tried_again(
    e: &mut EngineState,
    at: u64,
    job: PathJob,
    r: PathStep,
)
    requires
        call_ensures(EngineState::process_path_at, (e, at, job, Attempt::Failed), r),
        job.attempt < 2,
    ensures
        old(e).wf() ==> final(e).wf(),
        r matches PathStep::Retry(again) && {
            &&& places::same_path(again.path, job.path)
            &&& again.deep == job.deep
            &&& again.attempt == job.attempt + 1
        },
        same_state(*old(e), *final(e)),
        RETRY_DELAY_SECS == 1,
{
    assert(old(e)@ == final(e)@);
    lemma_same_state(*old(e), *final(e));
    if let PathStep::Retry(again) = r {
        places::lemma_same_path(again.path, job.path);
    }
}

/// The third failure ends the matter: the path is given up, and no other is. Nothing else changes.
pub proof fn law_third_failures_give_up(
    e: &mut EngineState,
    at: u64,
    job: PathJob,
    r: PathStep,
)
    requires
        call_ensures(EngineState::process_path_at, (e, at, job, Attempt::Failed), r),
        job.attempt >= 2,
    ensures
        old(e).wf() ==> final(e).wf(),
        r is Stop,
        places::gave_up(*final(e), job.path),
        forall|path: PathParts| #[trigger]
            places::gave_up(*final(e), path) <==> places::gave_up(*old(e), path)
                || places::same_path(path, job.path),
        same_history(*old(e), *final(e)),
        same_settings(*old(e), *final(e)),
{
    lemma_same_history(*old(e), *final(e));
    lemma_same_settings(*old(e), *final(e));
    places::lemma_gave_up(*final(e), job.path);
    assert forall|path: PathParts| #[trigger]
        places::gave_up(*final(e), path) <==> places::gave_up(*old(e), path) || places::same_path(
            path,
            job.path,
        ) by {
        places::lemma_gave_up(*final(e), path);
        places::lemma_gave_up(*old(e), path);
        places::lemma_same_path(path, job.path);
    }
}

/// An attempt that was made just now and renamed nothing comes to what it does at any time.
pub proof fn law_other_attempts_do_not_depend_on_the_time(
    e: &mut EngineState,
    job: PathJob,
    attempt: Attempt,
    r: PathStep,
)
    requires
        call_ensures(EngineState::process_path, (e, job, attempt), r),
        !(attempt is Renamed),
    ensures
        old(e).wf() ==> final(e).wf(),
        attempt is Unchanged ==> r is Stop && same_state(*old(e), *final(e)),
        attempt is Failed && job.attempt < 2 ==> same_state(*old(e), *final(e)) && (
        r matches PathStep::Retry(again) && {
            &&& places::same_path(again.path, job.path)
            &&& again.deep == job.deep
            &&& again.attempt == job.attempt + 1
        }),
        attempt is Failed && job.attempt >= 2 ==> {
            &&& r is Stop
            &&& same_history(*old(e), *final(e))
            &&& same_settings(*old(e), *final(e))
            &&& forall|path: PathParts| #[trigger]
                places::gave_up(*final(e), path) <==> places::gave_up(*old(e), path)
                    || places::same_path(path, job.path)
        },
{
    let at = choose|at: u64|
        engine::clock_gives(at) && #[trigger] engine::processed(
            old(e)@,
            at,
            job@,
            attempt@,
        ) == (final(e)@, r@);
    if attempt is Unchanged || job.attempt < 2 {
        assert(old(e)@ == final(e)@);
        lemma_same_state(*old(e), *final(e));
        if let PathStep::Retry(again) = r {
            places::lemma_same_path(again.path, job.path);
        }
    } else {
        lemma_same_history(*old(e), *final(e));
        lemma_same_settings(*old(e), *final(e));
        assert forall|path: PathParts| #[trigger]
            places::gave_up(*final(e), path) <==> places::gave_up(*old(e), path)
                || places::same_path(path, job.path) by {
            places::lemma_gave_up(*final(e), path);
            places::lemma_gave_up(*old(e), path);
            places::lemma_same_path(path, job.path);
        }
    }
}

/// An entry of a scan that was renamed is counted, and recorded just as it was renamed: the record
/// comes first in the history, and is handed on. Nothing else changes.
pub proof fn law_scanned_renames_are_counted_and_recorded(
    e: &mut EngineState,
    at: u64,
    count: usize,
    dir: String,
    from: String,
    to: String,
    r: (usize, Option<RenameRecord>),
)
    requires
        call_ensures(
            EngineState::scan_entry_at,
            (e, at, count, Attempt::Renamed(dir, from, to)),
            r,
        ),
    ensures
        old(e).wf() ==> final(e).wf(),
        r.0 == count + 1,
        r.1 matches Some(record) && tells(record, at, dir, from, to),
        final(e).history@.len() > 0,
        tells(final(e).history@[0], at, dir, from, to),
        has_one_more(*old(e), *final(e)),
        same_settings(*old(e), *final(e)),
        same_given_up(*old(e), *final(e)),
{
    lemma_one_more(*old(e), *final(e), at, dir, from, to);
}

/// The same of an entry that was renamed just now; the time is what the clock gives.
pub proof fn law_scanned_renames_are_recorded_at_their_time(
    e: &mut EngineState,
    count: usize,
    dir: String,
    from: String,
    to: String,
    r: (usize, Option<RenameRecord>),
)
    requires
        call_ensures(EngineState::scan_entry, (e, count, Attempt::Renamed(dir, from, to)), r),
    ensures
        old(e).wf() ==> final(e).wf(),
        r.0 == count + 1,
        r.1 matches Some(record) && {
            &&& engine::clock_gives(record.at)
            &&& tells(record, record.at, dir, from, to)
            &&& final(e).history@.len() > 0
            &&& tells(final(e).history@[0], record.at, dir, from, to)
        },
        has_one_more(*old(e), *final(e)),
        same_settings(*old(e), *final(e)),
        same_given_up(*old(e), *final(e)),
{
    let at = choose|at: u64|
        engine::clock_gives(at) && #[trigger] engine::scanned(
            old(e)@,
            at,
            count as nat,
            Attempt::Renamed(dir, from, to)@,
        ) == (final(e)@, r.0 as nat, engine::opt_record(r.1));
    lemma_one_more(*old(e), *final(e), at, dir, from, to);
}

/// An entry of a scan that was not renamed is not counted, and changes nothing.
pub proof fn law_other_scanned_entries_count_nothing(
    e: &mut EngineState,
    at: u64,
    count: usize,
    attempt: Attempt,
    r: (usize, Option<RenameRecord>),
)
    requires
        call_ensures(EngineState::scan_entry_at, (e, at, count, attempt), r) || call_ensures(
            EngineState::scan_entry,
            (e, count, attempt),
            r,
        ),
        !(attempt is Renamed),
    ensures
        old(e).wf() ==> final(e).wf(),
        r.0 == count,
        r.1 is None,
        same_state(*old(e), *final(e)),
{
    assert(old(e)@ == final(e)@);
    lemma_same_state(*old(e), *final(e));
}

/// A scan of all folders goes to every watched folder in their order, as deep as it is watched, and
/// forgets which paths were given up. Nothing else changes.
pub proof fn law_scans_go_to_every_folder(e: &mut EngineState, r: Vec<WatchedFolder>)
    requires
        call_ensures(EngineState::scan_all, (e,), r),
    ensures
        old(e).wf() ==> final(e).wf(),
        r@.len() == old(e).config.folders@.len(),
        forall|i: int|
            0 <= i < r@.len() ==> same_folder(#[trigger] r@[i], old(e).config.folders@[i]),
        forall|path: PathParts| !(#[trigger] places::gave_up(*final(e), path)),
        same_history(*old(e), *final(e)),
        same_settings(*old(e), *final(e)),
{
    lemma_same_history(*old(e), *final(e));
    lemma_same_settings(*old(e), *final(e));
    assert(config::folder_views(r@).len() == r@.len());
    assert(old(e)@.config.folders.len() == old(e).config.folders@.len());
    assert forall|i: int| 0 <= i < r@.len() implies same_folder(
        #[trigger] r@[i],
        old(e).config.folders@[i],
    ) by {
        assert(config::folder_views(r@)[i] == r@[i]@);
        assert(old(e)@.config.folders[i] == old(e).config.folders@[i]@);
    }
    assert forall|path: PathParts| !(#[trigger] places::gave_up(*final(e), path)) by {
        places::lemma_gave_up(*final(e), path);
    }
}

/// A scan leaves the folder itself out, goes one level down or, for a recursive folder, as far as
/// there is anything, and comes to what is in a folder before it comes to the folder.
pub proof fn law_scans_go_as_deep_as_asked(recursive: bool, r: ScanPlan)
    requires
        call_ensures(engine::scan_dir, (recursive,), r),
    ensures
        r.min_depth == 1,
        !recursive ==> r.max_depth == 1,
        recursive ==> r.max_depth == usize::MAX,
        r.contents_first,
{
}

/// A scan looks at every name that is text, but for those that start with a dot.
pub proof fn law_scans_leave_out_hidden_names(name: Option<&str>, r: bool)
    requires
        call_ensures(engine::is_scanned, (name,), r),
    ensures
        name is None ==> !r,
        name matches Some(n) ==> (r <==> n@.len() == 0 || n@[0] != '.'),
{
}

proof fn lemma_sum_of_two(a: Seq<usize>, b: Seq<usize>)
    ensures
        engine::sum_of(a + b) == engine::sum_of(a) + engine::sum_of(b),
    decreases b.len(),
{
    if b.len() == 0 {
        assert(a + b =~= a);
    } else {
        lemma_sum_of_two(a, b.drop_last());
        assert((a + b).drop_last() =~= a + b.drop_last());
        assert((a + b).last() == b.last());
    }
}

/// No count is zero in total, one count is the total, and the total of the counts of two scans is
/// the sum of theirs.
pub proof fn law_totals_are_sums(
    a: &Vec<usize>,
    b: &Vec<usize>,
    both: &Vec<usize>,
    x: usize,
    y: usize,
    total: usize,
)
    requires
        call_ensures(engine::scan_total, (a,), x),
        call_ensures(engine::scan_total, (b,), y),
        call_ensures(engine::scan_total, (both,), total),
        both@ == a@ + b@,
    ensures
        a@.len() == 0 ==> x == 0,
        a@.len() == 1 ==> x == a@[0],
        total == x + y,
{
    lemma_sum_of_two(a@, b@);
    if a@.len() == 1 {
        assert(engine::sum_of(a@.drop_last()) == 0);
    }
}

/// What a rename job came to is told on: the names as they were reported, nothing, or a failure.
pub proof fn law_outcomes_are_told_on<E>(dir: String, outcome: Outcome<E>, r: Attempt)
    requires
        call_ensures(engine::attempt_of::<E>, (dir, outcome), r),
    ensures
        outcome matches Ok(Some((from, to))) ==> (r matches Attempt::Renamed(d, a, b) && d@ == dir@
            && a@ == from@ && b@ == to@),
        outcome matches Ok(None) ==> r is Unchanged,
        outcome is Err ==> r is Failed,
{
}

/// Every folder is watched, in their order, and a recursive one with all that is below it.
pub proof fn law_every_folder_is_watched(folders: &Vec<WatchedFolder>, r: Vec<WatchRequest>)
    requires
        call_ensures(engine::rebuild_watcher, (folders,), r),
    ensures
        r@.len() == folders@.len(),
        forall|i: int|
            0 <= i < r@.len() ==> (#[trigger] r@[i]).path@ == folders@[i].path@ && (r@[i].mode
                == WatchMode::Recursive <==> folders@[i].recursive),
{
    assert(engine::watch_views(r@).len() == r@.len());
    assert forall|i: int| 0 <= i < r@.len() implies (#[trigger] r@[i]).path@ == folders@[i].path@
        && (r@[i].mode == WatchMode::Recursive <==> folders@[i].recursive) by {
        assert(engine::watch_views(r@)[i] == r@[i]@);
        assert(config::folder_views(folders@)[i] == folders@[i]@);
    }
}

/// The paths of a report are queued, all of them in their order, where a file may have come to bear
/// a name; a report of an access, a removal or something else queues none.
pub proof fn law_reports_are_queued<P>(kind: ChangeKind, paths: Vec<P>, r: Vec<P>)
    requires
        call_ensures(engine::queued_paths::<P>, (kind, paths), r),
    ensures
        kind is Create || kind is Modify || kind is Any ==> r@ == paths@,
        kind is Access || kind is Remove || kind is Other ==> r@.len() == 0,
{
}

} // verus!
