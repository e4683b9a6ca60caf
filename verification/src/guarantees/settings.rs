//! What the commands of the user make of the settings, what follows from them, and what the program
//! starts with.
use crate::commands::{Effect, Picked, UiState};
use crate::commands;
use crate::config::{AppConfig, FolderView, RenameRecord, Stored, WatchedFolder};
use crate::config;
use crate::engine::EngineState;
use crate::guarantees::places;
use crate::guarantees::reports;
use crate::paths::PathParts;
use vstd::prelude::*;
use vstd::string::*;

verus! {

/// The folders are the same, in the same order.
pub open spec fn same_folders(a: Seq<WatchedFolder>, b: Seq<WatchedFolder>) -> bool {
    &&& a.len() == b.len()
    &&& forall|i: int| 0 <= i < a.len() ==> reports::same_folder(#[trigger] a[i], b[i])
}

pub open spec fn same_records(a: Seq<RenameRecord>, b: Seq<RenameRecord>) -> bool {
    &&& a.len() == b.len()
    &&& forall|i: int| 0 <= i < a.len() ==> reports::same_record(#[trigger] a[i], b[i])
}

/// Nothing but the folders can have changed.
pub open spec fn same_but_folders(a: EngineState, b: EngineState) -> bool {
    &&& reports::same_history(a, b)
    &&& reports::same_given_up(a, b)
    &&& a.enabled == b.enabled
    &&& a.config.enabled == b.config.enabled
}

/// A folder of this path is watched.
pub open spec fn is_watched(folders: Seq<WatchedFolder>, path: Seq<char>) -> bool {
    exists|i: int| 0 <= i < folders.len() && (#[trigger] folders[i]).path@ == path
}

/// The effects begin with what follows every change of the folders: the settings are saved, the
/// watcher is made anew, and the window is told.
pub open spec fn follow_folders(effects: Seq<Effect>) -> bool {
    &&& effects.len() >= 3
    &&& effects[0] is SaveConfig
    &&& effects[1] is RebuildWatcher
    &&& effects[2] is EmitConfigChanged
}

proof fn lemma_same_folders(a: Seq<WatchedFolder>, b: Seq<WatchedFolder>)
    requires
        config::folder_views(a) == config::folder_views(b),
    ensures
        same_folders(a, b),
{
    assert(config::folder_views(a).len() == a.len());
    assert(config::folder_views(b).len() == b.len());
    assert forall|i: int| 0 <= i < a.len() implies reports::same_folder(#[trigger] a[i], b[i]) by {
        assert(config::folder_views(a)[i] == a[i]@);
        assert(config::folder_views(b)[i] == b[i]@);
    }
}

proof fn lemma_same_records(a: Seq<RenameRecord>, b: Seq<RenameRecord>)
    requires
        config::record_views(a) == config::record_views(b),
    ensures
        same_records(a, b),
{
    assert(config::record_views(a).len() == a.len());
    assert(config::record_views(b).len() == b.len());
    assert forall|i: int| 0 <= i < a.len() implies reports::same_record(#[trigger] a[i], b[i]) by {
        assert(config::record_views(a)[i] == a[i]@);
        assert(config::record_views(b)[i] == b[i]@);
    }
}

proof fn lemma_effects(effects: Seq<Effect>)
    ensures
        commands::effect_views(effects).len() == effects.len(),
        forall|i: int|
            0 <= i < effects.len() ==> #[trigger] commands::effect_views(effects)[i]
                == effects[i]@,
{
}

proof fn lemma_same_but_folders(a: EngineState, b: EngineState, folders: Seq<FolderView>)
    requires
        b@ == commands::with_folders(a@, folders),
    ensures
        same_but_folders(a, b),
        config::folder_views(b.config.folders@) == folders,
{
    reports::lemma_same_history(a, b);
    reports::lemma_same_given_up(a, b);
}

/// The program starts with the settings and the history it is given, the switch as the settings
/// have it, and no path given up.
pub proof fn law_states_start_from_what_is_given(
    config: AppConfig,
    history: Vec<RenameRecord>,
    r: EngineState,
)
    requires
        call_ensures(EngineState::new, (config, history), r),
    ensures
        r.enabled == config.enabled,
        r.config.enabled == config.enabled,
        same_folders(r.config.folders@, config.folders@),
        same_records(r.history@, history@),
        forall|path: PathParts| !(#[trigger] places::gave_up(r, path)),
{
    assert(r@.config == config@);
    lemma_same_folders(r.config.folders@, config.folders@);
    lemma_same_records(r.history@, history@);
    assert forall|path: PathParts| !(#[trigger] places::gave_up(r, path)) by {
        places::lemma_gave_up(r, path);
    }
}

/// At the start the worker and the watcher are set going, the tray is shown, and an update is looked
/// for; all folders are scanned if and only if renaming is switched on.
pub proof fn law_starting_scans_while_switched_on(e: &EngineState, r: Vec<Effect>)
    requires
        call_ensures(EngineState::startup, (e,), r),
    ensures
        r@.len() == (if e.enabled {
            5int
        } else {
            4int
        }),
        r@[0] is StartWorker,
        r@[1] is RebuildWatcher,
        r@[2] is BuildTray,
        r@[3] is CheckForUpdate,
        e.enabled ==> r@[4] is ScanAll,
{
    lemma_effects(r@);
    let views = commands::effect_views(r@);
    assert(views[0] is StartWorker && views[1] is RebuildWatcher);
    assert(views[2] is BuildTray && views[3] is CheckForUpdate);
    assert(e.enabled ==> views[4] is ScanAll);
}

/// What follows the switch: the settings are saved, the tray shows it, the window is told, and where
/// it was switched on all folders are scanned.
pub open spec fn follow_switch(effects: Seq<Effect>, on: bool) -> bool {
    &&& effects.len() == (if on {
        4int
    } else {
        3int
    })
    &&& effects[0] is SaveConfig
    &&& effects[1] == Effect::CheckTray(on)
    &&& effects[2] is EmitConfigChanged
    &&& on ==> effects[3] is ScanAll
}

/// Switching renaming on or off shows in the state and in the settings, and changes nothing else.
pub proof fn law_the_switch_is_kept(e: &mut EngineState, enabled: bool, r: Vec<Effect>)
    requires
        call_ensures(EngineState::apply_enabled, (e, enabled), r),
    ensures
        old(e).wf() ==> final(e).wf(),
        final(e).enabled == enabled,
        final(e).config.enabled == enabled,
        same_folders(old(e).config.folders@, final(e).config.folders@),
        reports::same_history(*old(e), *final(e)),
        reports::same_given_up(*old(e), *final(e)),
        follow_switch(r@, enabled),
{
    reports::lemma_same_history(*old(e), *final(e));
    reports::lemma_same_given_up(*old(e), *final(e));
    lemma_same_folders(old(e).config.folders@, final(e).config.folders@);
    lemma_effects(r@);
    let views = commands::effect_views(r@);
    assert(views[0] is SaveConfig && views[1] == commands::EffectView::CheckTray(enabled));
    assert(views[2] is EmitConfigChanged && (enabled ==> views[3] is ScanAll));
}

/// The entry of the tray turns the switch over, and changes nothing else.
pub proof fn law_the_tray_turns_the_switch(e: &mut EngineState, r: Vec<Effect>)
    requires
        call_ensures(EngineState::toggle_enabled, (e,), r),
    ensures
        old(e).wf() ==> final(e).wf(),
        final(e).enabled == !old(e).enabled,
        final(e).config.enabled == !old(e).enabled,
        same_folders(old(e).config.folders@, final(e).config.folders@),
        reports::same_history(*old(e), *final(e)),
        reports::same_given_up(*old(e), *final(e)),
        follow_switch(r@, !old(e).enabled),
{
    reports::lemma_same_history(*old(e), *final(e));
    reports::lemma_same_given_up(*old(e), *final(e));
    lemma_same_folders(old(e).config.folders@, final(e).config.folders@);
    lemma_effects(r@);
    let on = !old(e).enabled;
    let views = commands::effect_views(r@);
    assert(views[0] is SaveConfig && views[1] == commands::EffectView::CheckTray(on));
    assert(views[2] is EmitConfigChanged && (on ==> views[3] is ScanAll));
}

/// The window shows the settings as they are, and that the program starts by itself only where that
/// is known.
pub proof fn law_the_window_shows_the_settings(
    e: &EngineState,
    autostart: Option<bool>,
    r: UiState,
)
    requires
        call_ensures(EngineState::get_state, (e, autostart), r),
    ensures
        r.config.enabled == e.config.enabled,
        same_folders(r.config.folders@, e.config.folders@),
        autostart is None ==> !r.autostart,
        autostart matches Some(known) ==> r.autostart == known,
{
    assert(r.config@ == e.config@);
    lemma_same_folders(r.config.folders@, e.config.folders@);
}

/// The history is shown as it is.
pub proof fn law_the_window_shows_the_history(e: &EngineState, r: Vec<RenameRecord>)
    requires
        call_ensures(EngineState::get_history, (e,), r),
    ensures
        same_records(r@, e.history@),
{
    lemma_same_records(r@, e.history@);
}

/// A folder that is picked and not watched yet is watched from then on, behind the others and not
/// recursive; the others stay as they are. It is scanned if and only if renaming is switched on.
pub proof fn law_picked_folders_are_watched(
    e: &mut EngineState,
    path: String,
    r: Result<(bool, Vec<Effect>), String>,
)
    requires
        call_ensures(EngineState::pick_and_add_folder, (e, Picked::Folder(path)), r),
        !is_watched(old(e).config.folders@, path@),
    ensures
        old(e).wf() ==> final(e).wf(),
        ({
            let before = old(e).config.folders@;
            let after = final(e).config.folders@;
            &&& after.len() == before.len() + 1
            &&& same_folders(after.drop_last(), before)
            &&& after.last().path@ == path@
            &&& !after.last().recursive
        }),
        same_but_folders(*old(e), *final(e)),
        r matches Ok((new, effects)) && {
            &&& new
            &&& follow_folders(effects@)
            &&& effects@.len() == (if old(e).enabled {
                4int
            } else {
                3int
            })
            &&& old(e).enabled ==> (effects@[3] matches Effect::ScanFolder(p, deep) && p@ == path@
                && !deep)
        },
{
    let before = old(e).config.folders@;
    let after = final(e).config.folders@;
    let views = config::folder_views(before);
    lemma_watched(before, path@);
    lemma_same_but_folders(*old(e), *final(e), commands::added(views, path@));
    assert(config::folder_views(after).len() == after.len());
    assert forall|i: int| 0 <= i < before.len() implies #[trigger] views[i]
        == config::folder_views(after.drop_last())[i] by {
        assert(config::folder_views(after)[i] == after[i]@);
        assert(after.drop_last()[i] == after[i]);
    }
    assert(config::folder_views(after.drop_last()) =~= views);
    lemma_same_folders(after.drop_last(), before);
    assert(config::folder_views(after)[after.len() - 1] == after.last()@);
    if let Ok((new, effects)) = r {
        lemma_effects(effects@);
        let seen = commands::effect_views(effects@);
        assert(seen[0] is SaveConfig && seen[1] is RebuildWatcher && seen[2] is EmitConfigChanged);
        assert(old(e).enabled ==> seen[3] == commands::EffectView::ScanFolder(path@, false));
    }
}

proof fn lemma_watched(folders: Seq<WatchedFolder>, path: Seq<char>)
    ensures
        is_watched(folders, path) <==> commands::has_folder(config::folder_views(folders), path),
{
    let views = config::folder_views(folders);
    if is_watched(folders, path) {
        let i = choose|i: int| 0 <= i < folders.len() && (#[trigger] folders[i]).path@ == path;
        assert(views[i].path == path);
    }
    if commands::has_folder(views, path) {
        let i = choose|i: int| 0 <= i < views.len() && (#[trigger] views[i]).path == path;
        assert(folders[i].path@ == path);
    }
}

/// Picking a folder that is watched already, or none, or failing to pick one, changes nothing and
/// has nothing follow; a failure is reported as it is.
pub proof fn law_other_picks_change_nothing(
    e: &mut EngineState,
    picked: Picked,
    r: Result<(bool, Vec<Effect>), String>,
)
    requires
        call_ensures(EngineState::pick_and_add_folder, (e, picked), r),
        picked matches Picked::Folder(path) ==> is_watched(old(e).config.folders@, path@),
    ensures
        old(e).wf() ==> final(e).wf(),
        same_but_folders(*old(e), *final(e)),
        same_folders(old(e).config.folders@, final(e).config.folders@),
        picked matches Picked::Failed(error) ==> (r matches Err(told) && told@ == error@),
        !(picked is Failed) ==> (r matches Ok((new, effects)) && !new && effects@.len() == 0),
{
    if let Picked::Folder(path) = picked {
        lemma_watched(old(e).config.folders@, path@);
    }
    assert(old(e)@ == final(e)@);
    lemma_same_but_folders(*old(e), *final(e), old(e)@.config.folders);
    lemma_same_folders(old(e).config.folders@, final(e).config.folders@);
    if let Ok((new, effects)) = r {
        lemma_effects(effects@);
    }
}

/// The positions, in their order, of the folders that have another path than this.
pub open spec fn are_the_others(
    places: Seq<int>,
    folders: Seq<WatchedFolder>,
    path: Seq<char>,
) -> bool {
    &&& forall|a: int, b: int| 0 <= a < b < places.len() ==> places[a] < places[b]
    &&& forall|j: int|
        0 <= j < folders.len() ==> (#[trigger] places.contains(j) <==> folders[j].path@ != path)
    &&& forall|a: int| 0 <= a < places.len() ==> 0 <= #[trigger] places[a] < folders.len()
}

proof fn lemma_others(folders: Seq<WatchedFolder>, path: Seq<char>) -> (places: Seq<int>)
    ensures
        are_the_others(places, folders, path),
        ({
            let left = commands::removed(config::folder_views(folders), path);
            &&& left.len() == places.len()
            &&& forall|a: int|
                0 <= a < places.len() ==> #[trigger] left[a] == folders[places[a]]@
        }),
    decreases folders.len(),
{
    reveal(Seq::filter);
    let views = config::folder_views(folders);
    if folders.len() == 0 {
        seq![]
    } else {
        let rest = folders.drop_last();
        let last = folders.last();
        let fewer = lemma_others(rest, path);
        assert(views.drop_last() =~= config::folder_views(rest));
        assert(views.last() == last@);
        let places = if last.path@ != path {
            fewer.push(folders.len() - 1)
        } else {
            fewer
        };
        assert forall|j: int| 0 <= j < folders.len() implies (#[trigger] places.contains(j)
            <==> folders[j].path@ != path) by {
            broadcast use vstd::seq_lib::group_seq_properties;

            assert(places.contains(j) <==> fewer.contains(j) || (last.path@ != path && j
                == folders.len() - 1));
            if j < rest.len() {
                assert(rest[j] == folders[j]);
            } else if fewer.contains(j) {
                let a = choose|a: int| 0 <= a < fewer.len() && fewer[a] == j;
                assert(0 <= fewer[a] < rest.len());
            }
        }
        places
    }
}

/// Removing a folder removes every folder of its path, and no other: those stay as they are, in
/// their order.
pub proof fn law_removed_folders_are_gone(e: &mut EngineState, path: &String, r: Vec<Effect>)
    requires
        call_ensures(EngineState::remove_folder, (e, path), r),
    ensures
        old(e).wf() ==> final(e).wf(),
        !is_watched(final(e).config.folders@, path@),
        exists|places: Seq<int>| #[trigger]
            are_the_others(places, old(e).config.folders@, path@) && places.len()
                == final(e).config.folders@.len() && forall|a: int|
                0 <= a < places.len() ==> reports::same_folder(
                    #[trigger] final(e).config.folders@[a],
                    old(e).config.folders@[places[a]],
                ),
        same_but_folders(*old(e), *final(e)),
        follow_folders(r@),
        r@.len() == 3,
{
    let before = old(e).config.folders@;
    let after = final(e).config.folders@;
    let left = commands::removed(config::folder_views(before), path@);
    let places = lemma_others(before, path@);
    lemma_same_but_folders(*old(e), *final(e), left);
    assert(config::folder_views(after).len() == after.len());
    assert forall|a: int| 0 <= a < places.len() implies reports::same_folder(
        #[trigger] after[a],
        before[places[a]],
    ) by {
        assert(config::folder_views(after)[a] == after[a]@);
        assert(left[a] == before[places[a]]@);
    }
    commands::law_remove_is_complete(config::folder_views(before), path@);
    lemma_watched(after, path@);
    lemma_effects(r@);
    let seen = commands::effect_views(r@);
    assert(seen[0] is SaveConfig && seen[1] is RebuildWatcher && seen[2] is EmitConfigChanged);
}

/// Marking a folder as recursive, or not, shows in the first folder of its path; that keeps its
/// path, and all others stay as they are. It is scanned, with all that is below it, if and only if
/// it was marked as recursive while renaming is switched on.
pub proof fn law_marked_folders_are_recursive(
    e: &mut EngineState,
    path: String,
    recursive: bool,
    r: Vec<Effect>,
)
    requires
        call_ensures(EngineState::set_recursive, (e, path, recursive), r),
    ensures
        old(e).wf() ==> final(e).wf(),
        final(e).config.folders@.len() == old(e).config.folders@.len(),
        forall|i: int|
            #![trigger final(e).config.folders@[i]]
            0 <= i < final(e).config.folders@.len() ==> {
                let before = old(e).config.folders@;
                let first = before[i].path@ == path@ && forall|k: int|
                    0 <= k < i ==> (#[trigger] before[k]).path@ != path@;
                &&& final(e).config.folders@[i].path@ == before[i].path@
                &&& final(e).config.folders@[i].recursive == (if first {
                    recursive
                } else {
                    before[i].recursive
                })
            },
        same_but_folders(*old(e), *final(e)),
        follow_folders(r@),
        r@.len() == (if recursive && old(e).enabled {
            4int
        } else {
            3int
        }),
        recursive && old(e).enabled ==> (r@[3] matches Effect::ScanFolder(p, deep) && p@ == path@
            && deep),
{
    let before = old(e).config.folders@;
    let after = final(e).config.folders@;
    let views = config::folder_views(before);
    let n = commands::first_with(views, path@);
    lemma_same_but_folders(*old(e), *final(e), commands::marked(views, path@, recursive));
    commands::lemma_first_with(views, path@);
    commands::law_mark_changes_one_flag(views, path@, recursive);
    lemma_watched(before, path@);
    assert(config::folder_views(after).len() == after.len());
    assert forall|i: int| #![trigger after[i]] 0 <= i < after.len() implies {
        let first = before[i].path@ == path@ && forall|k: int|
            0 <= k < i ==> (#[trigger] before[k]).path@ != path@;
        &&& after[i].path@ == before[i].path@
        &&& after[i].recursive == (if first {
            recursive
        } else {
            before[i].recursive
        })
    } by {
        assert(config::folder_views(after)[i] == after[i]@);
        assert(views[i] == before[i]@);
        if i == n {
            assert forall|k: int| 0 <= k < i implies (#[trigger] before[k]).path@ != path@ by {
                assert(views[k] == before[k]@);
            }
            assert(views[n].path == path@);
        } else if before[i].path@ == path@ {
            assert(n < i);
            assert(views[n] == before[n]@);
            assert(before[n].path@ == path@);
        }
    }
    lemma_effects(r@);
    let seen = commands::effect_views(r@);
    assert(seen[0] is SaveConfig && seen[1] is RebuildWatcher && seen[2] is EmitConfigChanged);
    if recursive && old(e).enabled {
        assert(seen[3] == commands::EffectView::ScanFolder(path@, true));
    }
}

/// Settings that were stored are taken as they are; the program is switched off and without folders
/// where they are malformed. Where there are none, it is switched off and watches the download
/// folder, not recursively, where there is one; these settings, and only these, are written down.
pub proof fn law_settings_to_start_with(
    stored: Stored<AppConfig>,
    downloads: Option<String>,
    r: (AppConfig, bool),
)
    requires
        call_ensures(config::load_config, (stored, downloads), r),
    ensures
        stored matches Stored::Parsed(config) ==> r.0.enabled == config.enabled && same_folders(
            r.0.folders@,
            config.folders@,
        ),
        stored is Malformed ==> !r.0.enabled && r.0.folders@.len() == 0,
        stored is Missing ==> !r.0.enabled && (match downloads {
            Some(path) => r.0.folders@.len() == 1 && r.0.folders@[0].path@ == path@
                && !r.0.folders@[0].recursive,
            None => r.0.folders@.len() == 0,
        }),
        r.1 == (stored is Missing),
{
    assert(r.0@.folders.len() == r.0.folders@.len());
    match stored {
        Stored::Parsed(config) => {
            assert(r.0@ == config@);
            lemma_same_folders(r.0.folders@, config.folders@);
        },
        Stored::Malformed => {},
        Stored::Missing => {
            if downloads is Some {
                assert(r.0@.folders[0] == r.0.folders@[0]@);
            }
        },
    }
}

/// The default settings are switched off and without folders.
pub proof fn law_default_settings_do_nothing(r: AppConfig)
    requires
        call_ensures(AppConfig::default, (), r),
    ensures
        !r.enabled,
        r.folders@.len() == 0,
{
    assert(r@.folders.len() == r.folders@.len());
}

/// A history that was stored is taken as it is; without one, or with one that is malformed, it
/// starts empty.
pub proof fn law_history_to_start_with(stored: Stored<Vec<RenameRecord>>, r: Vec<RenameRecord>)
    requires
        call_ensures(config::load_history, (stored,), r),
    ensures
        stored matches Stored::Parsed(records) ==> same_records(r@, records@),
        !(stored is Parsed) ==> r@.len() == 0,
{
    assert(config::record_views(r@).len() == r@.len());
    if let Stored::Parsed(records) = stored {
        lemma_same_records(r@, records@);
    }
}

} // verus!
