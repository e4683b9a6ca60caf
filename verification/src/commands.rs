//! What the user does to the settings, and what follows from it.
use crate::config::{AppConfig, FolderView, RenameRecord, WatchedFolder};
use crate::config;
use crate::engine::{EngineState, EngineView};
use vstd::prelude::*;

verus! {

/// Something to be done outside, in the order given.
pub enum Effect {
    SaveConfig,
    /// Check or uncheck the switch in the tray menu.
    CheckTray(bool),
    EmitConfigChanged,
    RebuildWatcher,
    /// Scan all watched folders in the background.
    ScanAll,
    /// Scan one folder in the background, with all that is below it where so marked.
    ScanFolder(String, bool),
    StartWorker,
    BuildTray,
    CheckForUpdate,
}

pub enum EffectView {
    SaveConfig,
    CheckTray(bool),
    EmitConfigChanged,
    RebuildWatcher,
    ScanAll,
    ScanFolder(Seq<char>, bool),
    StartWorker,
    BuildTray,
    CheckForUpdate,
}

impl View for Effect {
    type V = EffectView;

    open spec fn view(&self) -> EffectView {
        match *self {
            Effect::SaveConfig => EffectView::SaveConfig,
            Effect::CheckTray(on) => EffectView::CheckTray(on),
            Effect::EmitConfigChanged => EffectView::EmitConfigChanged,
            Effect::RebuildWatcher => EffectView::RebuildWatcher,
            Effect::ScanAll => EffectView::ScanAll,
            Effect::ScanFolder(path, recursive) => EffectView::ScanFolder(path@, recursive),
            Effect::StartWorker => EffectView::StartWorker,
            Effect::BuildTray => EffectView::BuildTray,
            Effect::CheckForUpdate => EffectView::CheckForUpdate,
        }
    }
}

pub open spec fn effect_views(effects: Seq<Effect>) -> Seq<EffectView> {
    effects.map_values(|e: Effect| e@)
}

/// What the settings window shows.
pub struct UiState {
    pub config: AppConfig,
    pub autostart: bool,
}

/// What came of letting the user pick a folder.
pub enum Picked {
    /// The dialog, or the path it gave, could not be used.
    Failed(String),
    Nothing,
    Folder(String),
}

pub open spec fn has_folder(folders: Seq<FolderView>, path: Seq<char>) -> bool {
    exists|i: int| 0 <= i < folders.len() && (#[trigger] folders[i]).path == path
}

/// No path is watched twice.
pub open spec fn distinct_paths(folders: Seq<FolderView>) -> bool {
    forall|i: int, j: int|
        0 <= i < j < folders.len() ==> (#[trigger] folders[i]).path != (#[trigger] folders[j]).path
}

/// The folders with one more, not recursive, unless its path is among them.
pub open spec fn added(folders: Seq<FolderView>, path: Seq<char>) -> Seq<FolderView> {
    if has_folder(folders, path) {
        folders
    } else {
        folders.push(FolderView { path, recursive: false })
    }
}

/// The folders but for those of this path.
pub open spec fn removed(folders: Seq<FolderView>, path: Seq<char>) -> Seq<FolderView> {
    folders.filter(|f: FolderView| f.path != path)
}

/// Where the first folder of this path is, or the number of folders where none is.
pub open spec fn first_with(folders: Seq<FolderView>, path: Seq<char>) -> int
    decreases folders.len(),
{
    if folders.len() == 0 || folders[0].path == path {
        0
    } else {
        1 + first_with(folders.skip(1), path)
    }
}

/// The folders with the first one of this path made recursive, or not.
pub open spec fn marked(folders: Seq<FolderView>, path: Seq<char>, recursive: bool) -> Seq<
    FolderView,
> {
    let i = first_with(folders, path);
    if i < folders.len() {
        folders.update(i, FolderView { recursive, ..folders[i] })
    } else {
        folders
    }
}

pub open spec fn with_folders(e: EngineView, folders: Seq<FolderView>) -> EngineView {
    EngineView { config: config::ConfigView { folders, ..e.config }, ..e }
}

/// What follows a change of the folders.
pub open spec fn folder_effects() -> Seq<EffectView> {
    seq![EffectView::SaveConfig, EffectView::RebuildWatcher, EffectView::EmitConfigChanged]
}

pub proof fn lemma_first_with(folders: Seq<FolderView>, path: Seq<char>)
    ensures
        0 <= first_with(folders, path) <= folders.len(),
        first_with(folders, path) < folders.len() ==> folders[first_with(folders, path)].path
            == path,
        forall|k: int| 0 <= k < first_with(folders, path) ==> (#[trigger] folders[k]).path != path,
    decreases folders.len(),
{
    if folders.len() > 0 && folders[0].path != path {
        lemma_first_with(folders.skip(1), path);
        assert forall|k: int| 0 <= k < first_with(folders, path) implies (
        #[trigger] folders[k]).path != path by {
            if k > 0 {
                assert(folders.skip(1)[k - 1] == folders[k]);
            }
        }
    }
}

impl EngineState {
    /// The state at the start: nothing has failed yet, and the switch is as the settings say.
    pub fn new(config: AppConfig, history: Vec<RenameRecord>) -> (r: EngineState)
        ensures
            r.wf(),
            r@ == (EngineView {
                config: config@,
                history: config::record_views(history@),
                enabled: config.enabled,
                failed: Set::empty(),
            }),
    {
        let enabled: bool = config.enabled;
        let r = EngineState { config, history, enabled, failed: Vec::new() };
        assert(r@.failed =~= Set::empty());
        r
    }

    /// What is to be done at the start, once the state is there. Files that came while nothing
    /// was running are taken care of by a scan.
    pub fn startup(&self) -> (r: Vec<Effect>)
        ensures
            effect_views(r@) == seq![
                EffectView::StartWorker,
                EffectView::RebuildWatcher,
                EffectView::BuildTray,
                EffectView::CheckForUpdate,
            ] + (if self.enabled {
                seq![EffectView::ScanAll]
            } else {
                seq![]
            }),
    {
        let mut r: Vec<Effect> = Vec::new();
        r.push(Effect::StartWorker);
        r.push(Effect::RebuildWatcher);
        r.push(Effect::BuildTray);
        r.push(Effect::CheckForUpdate);
        if self.enabled {
            r.push(Effect::ScanAll);
        }
        assert(effect_views(r@) =~= seq![
            EffectView::StartWorker,
            EffectView::RebuildWatcher,
            EffectView::BuildTray,
            EffectView::CheckForUpdate,
        ] + (if self.enabled {
            seq![EffectView::ScanAll]
        } else {
            seq![]
        }));
        r
    }

    /// Switches renaming on or off. Switching it on takes care of what came in the meantime.
    pub fn apply_enabled(&mut self, enabled: bool) -> (r: Vec<Effect>)
        ensures
            final(self).wf() <== old(self).wf(),
            final(self)@ == (EngineView {
                enabled,
                config: config::ConfigView { enabled, ..old(self)@.config },
                ..old(self)@
            }),
            effect_views(r@) == seq![
                EffectView::SaveConfig,
                EffectView::CheckTray(enabled),
                EffectView::EmitConfigChanged,
            ] + (if enabled {
                seq![EffectView::ScanAll]
            } else {
                seq![]
            }),
    {
        self.enabled = enabled;
        self.config.enabled = enabled;
        let mut r: Vec<Effect> = Vec::new();
        r.push(Effect::SaveConfig);
        r.push(Effect::CheckTray(enabled));
        r.push(Effect::EmitConfigChanged);
        if enabled {
            r.push(Effect::ScanAll);
        }
        assert(effect_views(r@) =~= seq![
            EffectView::SaveConfig,
            EffectView::CheckTray(enabled),
            EffectView::EmitConfigChanged,
        ] + (if enabled {
            seq![EffectView::ScanAll]
        } else {
            seq![]
        }));
        r
    }

    /// What the settings window shows, given whether the program starts by itself, where that can
    /// be told.
    pub fn get_state(&self, autostart: Option<bool>) -> (r: UiState)
        ensures
            r.config@ == self@.config,
            r.autostart == (autostart == Some(true)),
    {
        UiState { config: self.config.clone(), autostart: autostart.is_some() && autostart.unwrap() }
    }

    /// The renames that were made, the latest first.
    pub fn get_history(&self) -> (r: Vec<RenameRecord>)
        ensures
            config::record_views(r@) == self@.history,
    {
        let r: Vec<RenameRecord> = self.history.clone();
        assert(r@ =~= self.history@);
        r
    }
}

fn position_of(folders: &Vec<WatchedFolder>, path: &String) -> (r: usize)
    ensures
        r == first_with(config::folder_views(folders@), path@),
        r <= folders@.len(),
{
    let ghost all = config::folder_views(folders@);
    let mut i: usize = 0;
    while i < folders.len()
        invariant
            i <= folders@.len(),
            all == config::folder_views(folders@),
            forall|k: int| 0 <= k < i ==> (#[trigger] all[k]).path != path@,
        decreases folders@.len() - i,
    {
        assert(all[i as int] == folders@[i as int]@);
        if folders[i].path == *path {
            proof {
                lemma_first_with(all, path@);
            }
            return i;
        }
        i = i + 1;
    }
    proof {
        lemma_first_with(all, path@);
    }
    i
}

impl EngineState {
    /// Watches the folder that the user picked, unless it is watched already. Tells whether there
    /// is a new folder, and what is to be done then.
    pub fn pick_and_add_folder(&mut self, picked: Picked) -> (r: Result<(bool, Vec<Effect>), String>)
        ensures
            old(self).wf() ==> final(self).wf(),
            match picked {
                Picked::Failed(e) => r == Err::<(bool, Vec<Effect>), String>(e) && final(self)@
                    == old(self)@,
                Picked::Nothing => {
                    &&& r matches Ok((false, effects)) && effects@.len() == 0
                    &&& final(self)@ == old(self)@
                },
                Picked::Folder(path) => {
                    let folders = old(self)@.config.folders;
                    &&& final(self)@ == with_folders(old(self)@, added(folders, path@))
                    &&& r matches Ok((new, effects)) && {
                        &&& new == !has_folder(folders, path@)
                        &&& effect_views(effects@) == (if !new {
                            seq![]
                        } else if old(self)@.enabled {
                            folder_effects().push(EffectView::ScanFolder(path@, false))
                        } else {
                            folder_effects()
                        })
                    }
                },
            },
    {
        match picked {
            Picked::Failed(e) => Err(e),
            Picked::Nothing => Ok((false, Vec::new())),
            Picked::Folder(path) => {
                let i: usize = position_of(&self.config.folders, &path);
                let ghost before = old(self)@.config.folders;
                proof {
                    lemma_first_with(before, path@);
                }
                let mut effects: Vec<Effect> = Vec::new();
                if i < self.config.folders.len() {
                    assert(has_folder(before, path@));
                    assert(effect_views(effects@) =~= seq![]);
                    return Ok((false, effects));
                }
                let kept: String = path.clone();
                self.config.folders.push(WatchedFolder { path, recursive: false });
                assert(self@.config.folders =~= added(before, path@));
                effects.push(Effect::SaveConfig);
                effects.push(Effect::RebuildWatcher);
                effects.push(Effect::EmitConfigChanged);
                assert(effect_views(effects@) =~= folder_effects());
                if self.enabled {
                    effects.push(Effect::ScanFolder(kept, false));
                    assert(effect_views(effects@) =~= folder_effects().push(
                        EffectView::ScanFolder(path@, false),
                    ));
                }
                Ok((true, effects))
            },
        }
    }

    /// Stops watching every folder of this path.
    pub fn remove_folder(&mut self, path: &String) -> (r: Vec<Effect>)
        ensures
            old(self).wf() ==> final(self).wf(),
            final(self)@ == with_folders(
                old(self)@,
                removed(old(self)@.config.folders, path@),
            ),
            effect_views(r@) == folder_effects(),
    {
        let ghost before = old(self)@.config.folders;
        let ghost keep = |f: FolderView| f.path != path@;
        let ghost mut k: int = 0;
        let mut i: usize = 0;
        assert(before.take(0).filter(keep) =~= seq![]) by {
            reveal(Seq::filter);
        }
        while i < self.config.folders.len()
            invariant
                0 <= k <= before.len(),
                keep == (|f: FolderView| f.path != path@),
                i == before.take(k).filter(keep).len(),
                config::folder_views(self.config.folders@) == before.take(k).filter(keep)
                    + before.skip(k),
                self.enabled == old(self).enabled,
                self.history == old(self).history,
                self.failed == old(self).failed,
                self.config.enabled == old(self).config.enabled,
            decreases before.len() - k,
        {
            let ghost views = config::folder_views(self.config.folders@);
            assert(views[i as int] == before[k]);
            assert(views[i as int] == self.config.folders@[i as int]@);
            assert(before.take(k + 1).drop_last() =~= before.take(k));
            assert(before.take(k + 1).last() == before[k]);
            proof {
                reveal(Seq::filter);
            }
            if self.config.folders[i].path == *path {
                assert(!keep(before[k]));
                assert(before.take(k + 1).filter(keep) == before.take(k).filter(keep));
                let _ = self.config.folders.remove(i);
                assert(config::folder_views(self.config.folders@) =~= views.remove(i as int));
                assert(config::folder_views(self.config.folders@) =~= before.take(k + 1).filter(
                    keep,
                ) + before.skip(k + 1));
            } else {
                i = i + 1;
                assert(views =~= before.take(k + 1).filter(keep) + before.skip(k + 1));
            }
            proof {
                k = k + 1;
            }
        }
        assert(k == before.len());
        assert(before.take(k) =~= before);
        assert(before.skip(k) =~= seq![]);
        assert(self@.config.folders =~= removed(before, path@));
        let mut r: Vec<Effect> = Vec::new();
        r.push(Effect::SaveConfig);
        r.push(Effect::RebuildWatcher);
        r.push(Effect::EmitConfigChanged);
        assert(effect_views(r@) =~= folder_effects());
        r
    }

    /// Makes the folder of this path recursive, or not. One that becomes recursive is scanned.
    pub fn set_recursive(&mut self, path: String, recursive: bool) -> (r: Vec<Effect>)
        ensures
            old(self).wf() ==> final(self).wf(),
            final(self)@ == with_folders(
                old(self)@,
                marked(old(self)@.config.folders, path@, recursive),
            ),
            effect_views(r@) == (if recursive && old(self)@.enabled {
                folder_effects().push(EffectView::ScanFolder(path@, true))
            } else {
                folder_effects()
            }),
    {
        let ghost before = old(self)@.config.folders;
        let i: usize = position_of(&self.config.folders, &path);
        if i < self.config.folders.len() {
            let same: String = self.config.folders[i].path.clone();
            self.config.folders.set(i, WatchedFolder { path: same, recursive });
        }
        assert(self@.config.folders =~= marked(before, path@, recursive));
        let mut r: Vec<Effect> = Vec::new();
        r.push(Effect::SaveConfig);
        r.push(Effect::RebuildWatcher);
        r.push(Effect::EmitConfigChanged);
        assert(effect_views(r@) =~= folder_effects());
        if recursive && self.enabled {
            r.push(Effect::ScanFolder(path, true));
            assert(effect_views(r@) =~= folder_effects().push(
                EffectView::ScanFolder(path@, true),
            ));
        }
        r
    }
}

proof fn lemma_removed_elements(folders: Seq<FolderView>, path: Seq<char>)
    ensures
        forall|f: FolderView| #[trigger]
            removed(folders, path).contains(f) <==> folders.contains(f) && f.path != path,
        !has_folder(folders, path) ==> removed(folders, path) == folders,
        distinct_paths(folders) ==> distinct_paths(removed(folders, path)),
    decreases folders.len(),
{
    reveal(Seq::filter);
    if folders.len() > 0 {
        let rest = folders.drop_last();
        let last = folders.last();
        lemma_removed_elements(rest, path);
        assert(folders =~= rest.push(last));
        assert forall|f: FolderView| #[trigger]
            removed(folders, path).contains(f) <==> folders.contains(f) && f.path != path by {
            broadcast use vstd::seq_lib::group_seq_properties;

            assert(folders.contains(f) <==> rest.contains(f) || f == last);
            assert(removed(rest, path).push(last).contains(f) <==> removed(rest, path).contains(f)
                || f == last);
        }
        if !has_folder(folders, path) {
            assert(folders[folders.len() - 1].path != path);
            assert forall|i: int| 0 <= i < rest.len() implies (#[trigger] rest[i]).path != path by {
                assert(folders[i] == rest[i]);
            }
            assert(removed(folders, path) =~= folders);
        }
        if distinct_paths(folders) {
            assert forall|i: int, j: int| 0 <= i < j < rest.len() implies (
            #[trigger] rest[i]).path != (#[trigger] rest[j]).path by {
                assert(folders[i] == rest[i] && folders[j] == rest[j]);
            }
            let out = removed(folders, path);
            if last.path != path {
                assert forall|i: int, j: int| 0 <= i < j < out.len() implies (
                #[trigger] out[i]).path != (#[trigger] out[j]).path by {
                    let kept = removed(rest, path);
                    if j == kept.len() {
                        assert(kept.contains(kept[i]));
                        assert(rest.contains(kept[i]));
                        let k = choose|k: int| 0 <= k < rest.len() && rest[k] == kept[i];
                        assert(folders[k].path != folders[folders.len() - 1].path);
                    } else {
                        assert(kept[i].path != kept[j].path);
                    }
                }
            }
        }
    } else {
        assert(removed(folders, path) =~= folders);
    }
}

/// Adding a folder that is not watched and removing it again leaves the folders as they were.
pub proof fn law_remove_undoes_add(folders: Seq<FolderView>, path: Seq<char>)
    requires
        !has_folder(folders, path),
    ensures
        removed(added(folders, path), path) == folders,
{
    reveal(Seq::filter);
    lemma_removed_elements(folders, path);
    assert(added(folders, path).drop_last() =~= folders);
}

/// After adding, the path is watched; adding it again changes nothing.
pub proof fn law_add_once(folders: Seq<FolderView>, path: Seq<char>)
    ensures
        has_folder(added(folders, path), path),
        added(added(folders, path), path) == added(folders, path),
{
    if !has_folder(folders, path) {
        assert(added(folders, path)[folders.len() as int].path == path);
    }
}

/// After removing, the path is not watched, and every other folder still is, unchanged; removing
/// it again changes nothing.
pub proof fn law_remove_is_complete(folders: Seq<FolderView>, path: Seq<char>)
    ensures
        !has_folder(removed(folders, path), path),
        forall|f: FolderView|
            f.path != path ==> (#[trigger] removed(folders, path).contains(f)
                <==> folders.contains(f)),
        removed(removed(folders, path), path) == removed(folders, path),
{
    lemma_removed_elements(folders, path);
    let out = removed(folders, path);
    assert forall|i: int| 0 <= i < out.len() implies (#[trigger] out[i]).path != path by {
        assert(out.contains(out[i]));
    }
    lemma_removed_elements(out, path);
}

/// No command makes a path watched twice.
pub proof fn law_paths_stay_distinct(folders: Seq<FolderView>, path: Seq<char>, recursive: bool)
    requires
        distinct_paths(folders),
    ensures
        distinct_paths(added(folders, path)),
        distinct_paths(removed(folders, path)),
        distinct_paths(marked(folders, path, recursive)),
{
    lemma_removed_elements(folders, path);
    lemma_first_with(folders, path);
}

/// Marking a folder as recursive, or not, adds and removes none, keeps every path, and shows in
/// the folder of this path; marking it back restores the folders.
pub proof fn law_mark_changes_one_flag(folders: Seq<FolderView>, path: Seq<char>, recursive: bool)
    ensures
        marked(folders, path, recursive).len() == folders.len(),
        forall|i: int|
            0 <= i < folders.len() ==> (#[trigger] marked(folders, path, recursive)[i]).path
                == folders[i].path,
        forall|i: int|
            0 <= i < folders.len() && i != first_with(folders, path) ==> #[trigger] marked(
                folders,
                path,
                recursive,
            )[i] == folders[i],
        has_folder(folders, path) ==> first_with(folders, path) < folders.len() && marked(
            folders,
            path,
            recursive,
        )[first_with(folders, path)].recursive == recursive && marked(
            marked(folders, path, recursive),
            path,
            folders[first_with(folders, path)].recursive,
        ) == folders,
{
    lemma_first_with(folders, path);
    let out = marked(folders, path, recursive);
    lemma_first_with(out, path);
    if has_folder(folders, path) {
        let i = first_with(folders, path);
        assert(i < folders.len());
        let j = first_with(out, path);
        assert(out[i].path == path);
        assert(j == i) by {
            if j < i {
                assert(out[j].path == folders[j].path);
            }
        }
        assert(marked(out, path, folders[i].recursive) =~= folders);
    }
}

} // verus!
