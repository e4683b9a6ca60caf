use jamoa::commands::{Effect, Picked};
use jamoa::config::{AppConfig, WatchedFolder};
use jamoa::engine::EngineState;
use jamoa::shell::{
    build_tray, menu_command, on_window_event, prevents_exit, update_step, MenuCommand, MenuEntry,
    UpdateAction, UpdateEvent, WindowChange,
};

fn engine(enabled: bool, folders: &[(&str, bool)]) -> EngineState {
    let folders = folders
        .iter()
        .map(|(p, r)| WatchedFolder { path: p.to_string(), recursive: *r })
        .collect();
    EngineState::new(AppConfig { enabled, folders }, Vec::new())
}

fn paths(e: &EngineState) -> Vec<(&str, bool)> {
    e.config.folders.iter().map(|f| (f.path.as_str(), f.recursive)).collect()
}

fn names(effects: &[Effect]) -> Vec<String> {
    effects
        .iter()
        .map(|e| match e {
            Effect::SaveConfig => "save".to_string(),
            Effect::CheckTray(on) => format!("tray {on}"),
            Effect::EmitConfigChanged => "emit".to_string(),
            Effect::RebuildWatcher => "watch".to_string(),
            Effect::ScanAll => "scan".to_string(),
            Effect::ScanFolder(p, r) => format!("scan {p} {r}"),
            Effect::StartWorker => "worker".to_string(),
            Effect::BuildTray => "menu".to_string(),
            Effect::CheckForUpdate => "update".to_string(),
        })
        .collect()
}

#[test]
fn switching_keeps_settings_and_state_together() {
    let mut e = engine(false, &[]);
    assert_eq!(names(&e.apply_enabled(true)), vec!["save", "tray true", "emit", "scan"]);
    assert!(e.enabled && e.config.enabled);
    assert_eq!(names(&e.apply_enabled(false)), vec!["save", "tray false", "emit"]);
    assert!(!e.enabled && !e.config.enabled);
    assert_eq!(names(&e.toggle_enabled()), vec!["save", "tray true", "emit", "scan"]);
    assert!(e.enabled);
}

#[test]
fn startup_scans_when_enabled() {
    let e = engine(true, &[]);
    assert_eq!(names(&e.startup()), vec!["worker", "watch", "menu", "update", "scan"]);
    let e = engine(false, &[]);
    assert_eq!(names(&e.startup()), vec!["worker", "watch", "menu", "update"]);
}

#[test]
fn folders_are_added_once() {
    let mut e = engine(true, &[("/a", true)]);
    let (new, effects) = e.pick_and_add_folder(Picked::Folder("/b".to_string())).unwrap();
    assert!(new);
    assert_eq!(names(&effects), vec!["save", "watch", "emit", "scan /b false"]);
    let (new, effects) = e.pick_and_add_folder(Picked::Folder("/b".to_string())).unwrap();
    assert!(!new && effects.is_empty());
    assert_eq!(paths(&e), vec![("/a", true), ("/b", false)]);
    let (new, effects) = e.pick_and_add_folder(Picked::Nothing).unwrap();
    assert!(!new && effects.is_empty());
    match e.pick_and_add_folder(Picked::Failed("broken".to_string())) {
        Err(message) => assert_eq!(message, "broken"),
        Ok(_) => panic!("no error"),
    }
    let mut e = engine(false, &[]);
    let (new, effects) = e.pick_and_add_folder(Picked::Folder("/b".to_string())).unwrap();
    assert!(new);
    assert_eq!(names(&effects), vec!["save", "watch", "emit"]);
}

#[test]
fn removing_undoes_adding() {
    let mut e = engine(false, &[("/a", true), ("/c", false)]);
    assert!(e.pick_and_add_folder(Picked::Folder("/b".to_string())).is_ok());
    let effects = e.remove_folder(&"/b".to_string());
    assert_eq!(names(&effects), vec!["save", "watch", "emit"]);
    assert_eq!(paths(&e), vec![("/a", true), ("/c", false)]);
    let mut e = engine(false, &[("/a", true), ("/b", false), ("/a", false)]);
    e.remove_folder(&"/a".to_string());
    assert_eq!(paths(&e), vec![("/b", false)]);
    e.remove_folder(&"/a".to_string());
    assert_eq!(paths(&e), vec![("/b", false)]);
}

#[test]
fn first_folder_of_the_path_is_marked() {
    let mut e = engine(true, &[("/a", false), ("/b", false), ("/b", false)]);
    let effects = e.set_recursive("/b".to_string(), true);
    assert_eq!(names(&effects), vec!["save", "watch", "emit", "scan /b true"]);
    assert_eq!(paths(&e), vec![("/a", false), ("/b", true), ("/b", false)]);
    let effects = e.set_recursive("/b".to_string(), false);
    assert_eq!(names(&effects), vec!["save", "watch", "emit"]);
    assert_eq!(paths(&e), vec![("/a", false), ("/b", false), ("/b", false)]);
    e.set_recursive("/none".to_string(), true);
    assert_eq!(paths(&e), vec![("/a", false), ("/b", false), ("/b", false)]);
    let mut e = engine(false, &[("/a", false)]);
    assert_eq!(names(&e.set_recursive("/a".to_string(), true)), vec!["save", "watch", "emit"]);
}

#[test]
fn window_shows_settings() {
    let e = engine(true, &[("/a", true)]);
    let ui = e.get_state(Some(true));
    assert!(ui.autostart && ui.config.enabled);
    assert_eq!(ui.config.folders, e.config.folders);
    assert!(!e.get_state(Some(false)).autostart);
    assert!(!e.get_state(None).autostart);
}

#[test]
fn menu_entries_have_commands() {
    let menu = build_tray(true);
    assert_eq!(menu.len(), 6);
    let mut commands = Vec::new();
    for entry in &menu {
        match entry {
            MenuEntry::Item(id, _) => commands.push(menu_command(id)),
            MenuEntry::Check(id, label, checked) => {
                assert!(*checked);
                assert_eq!(label, "자동 정규화");
                commands.push(menu_command(id));
            }
            MenuEntry::Separator => {}
        }
    }
    assert_eq!(
        commands,
        vec![
            MenuCommand::ShowWindow,
            MenuCommand::Scan,
            MenuCommand::Toggle,
            MenuCommand::Quit
        ]
    );
    assert!(matches!(&menu[0], MenuEntry::Item(_, label) if label == "설정 열기…"));
    assert!(matches!(menu[2], MenuEntry::Separator));
    assert!(matches!(&build_tray(false)[3], MenuEntry::Check(_, _, false)));
    assert_eq!(menu_command("other"), MenuCommand::Nothing);
    assert_eq!(menu_command(""), MenuCommand::Nothing);
}

#[test]
fn closing_only_hides() {
    let reply = on_window_event(WindowChange::CloseRequested);
    assert!(reply.hide && reply.prevent_close);
    let reply = on_window_event(WindowChange::Other);
    assert!(!reply.hide && !reply.prevent_close);
    assert!(prevents_exit(None));
    assert!(!prevents_exit(Some(0)));
}

#[test]
fn update_needs_consent() {
    assert!(matches!(update_step(UpdateEvent::Unavailable), UpdateAction::Stop));
    assert!(matches!(update_step(UpdateEvent::UpToDate), UpdateAction::Stop));
    match update_step(UpdateEvent::Found("1.2.3".to_string())) {
        UpdateAction::Ask(title, message, accept, decline) => {
            assert_eq!(title, "Jamoa 업데이트");
            assert_eq!(
                message,
                "새 버전 v1.2.3이 나왔습니다. 지금 업데이트할까요?\n(다운로드 후 자동으로 재시작됩니다)"
            );
            assert_eq!((accept.as_str(), decline.as_str()), ("업데이트", "나중에"));
        }
        _ => panic!("not asked"),
    }
    assert!(matches!(update_step(UpdateEvent::Answered(false)), UpdateAction::Stop));
    assert!(matches!(update_step(UpdateEvent::Answered(true)), UpdateAction::Install));
    assert!(matches!(update_step(UpdateEvent::Installed), UpdateAction::Restart));
    match update_step(UpdateEvent::InstallFailed("E".to_string())) {
        UpdateAction::Tell(title, message) => {
            assert_eq!(title, "Jamoa 업데이트");
            assert_eq!(message, "업데이트에 실패했습니다: E");
        }
        _ => panic!("not told"),
    }
}
