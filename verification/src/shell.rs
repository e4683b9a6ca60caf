//! The tray menu, the life of the window, and the question whether to update.
use crate::commands::Effect;
use crate::commands;
use crate::config;
use crate::engine::{EngineState, EngineView};
use crate::text;
use vstd::prelude::*;
use vstd::string::*;

verus! {

/// An entry of the tray menu.
pub enum MenuEntry {
    /// Its identifier and its label.
    Item(String, String),
    /// Its identifier, its label, and whether it is checked.
    Check(String, String, bool),
    Separator,
}

pub enum MenuEntryView {
    Item(Seq<char>, Seq<char>),
    Check(Seq<char>, Seq<char>, bool),
    Separator,
}

impl View for MenuEntry {
    type V = MenuEntryView;

    open spec fn view(&self) -> MenuEntryView {
        match *self {
            MenuEntry::Item(id, label) => MenuEntryView::Item(id@, label@),
            MenuEntry::Check(id, label, checked) => MenuEntryView::Check(id@, label@, checked),
            MenuEntry::Separator => MenuEntryView::Separator,
        }
    }
}

pub open spec fn menu_views(entries: Seq<MenuEntry>) -> Seq<MenuEntryView> {
    entries.map_values(|e: MenuEntry| e@)
}

/// The tray menu: settings and scan, the switch, and the way out.
pub open spec fn tray_menu(enabled: bool) -> Seq<MenuEntryView> {
    seq![
        MenuEntryView::Item("open"@, "설정 열기…"@),
        MenuEntryView::Item("scan"@, "지금 전체 검사"@),
        MenuEntryView::Separator,
        MenuEntryView::Check("enabled"@, "자동 정규화"@, enabled),
        MenuEntryView::Separator,
        MenuEntryView::Item("quit"@, "종료"@),
    ]
}

/// The tray menu to show.
pub fn build_tray(enabled: bool) -> (r: Vec<MenuEntry>)
    ensures
        menu_views(r@) == tray_menu(enabled),
{
    let mut r: Vec<MenuEntry> = Vec::new();
    r.push(MenuEntry::Item("open".to_owned(), "설정 열기…".to_owned()));
    r.push(MenuEntry::Item("scan".to_owned(), "지금 전체 검사".to_owned()));
    r.push(MenuEntry::Separator);
    r.push(MenuEntry::Check("enabled".to_owned(), "자동 정규화".to_owned(), enabled));
    r.push(MenuEntry::Separator);
    r.push(MenuEntry::Item("quit".to_owned(), "종료".to_owned()));
    assert(menu_views(r@) =~= tray_menu(enabled));
    r
}

/// What choosing an entry of the tray menu asks for.
#[derive(Debug, Clone, Copy, PartialEq, Eq, Structural)]
pub enum MenuCommand {
    ShowWindow,
    /// Scan all watched folders in the background, and tell the window how many were renamed.
    Scan,
    /// Switch renaming on if it is off, and off if it is on.
    Toggle,
    Quit,
    Nothing,
}

pub open spec fn command_of(id: Seq<char>) -> MenuCommand {
    if id == "open"@ {
        MenuCommand::ShowWindow
    } else if id == "scan"@ {
        MenuCommand::Scan
    } else if id == "enabled"@ {
        MenuCommand::Toggle
    } else if id == "quit"@ {
        MenuCommand::Quit
    } else {
        MenuCommand::Nothing
    }
}

/// What choosing the entry of this identifier asks for.
pub fn menu_command(id: &str) -> (r: MenuCommand)
    ensures
        r == command_of(id@),
{
    if text::same_text(id, "open") {
        MenuCommand::ShowWindow
    } else if text::same_text(id, "scan") {
        MenuCommand::Scan
    } else if text::same_text(id, "enabled") {
        MenuCommand::Toggle
    } else if text::same_text(id, "quit") {
        MenuCommand::Quit
    } else {
        MenuCommand::Nothing
    }
}

/// The entries of the tray menu ask for four different things, in this order.
pub proof fn law_every_entry_has_its_command(enabled: bool)
    ensures
        tray_menu(enabled)[0] matches MenuEntryView::Item(id, _) && command_of(id)
            == MenuCommand::ShowWindow,
        tray_menu(enabled)[1] matches MenuEntryView::Item(id, _) && command_of(id)
            == MenuCommand::Scan,
        tray_menu(enabled)[3] matches MenuEntryView::Check(id, _, checked) && checked == enabled
            && command_of(id) == MenuCommand::Toggle,
        tray_menu(enabled)[5] matches MenuEntryView::Item(id, _) && command_of(id)
            == MenuCommand::Quit,
{
    reveal_strlit("open");
    reveal_strlit("scan");
    reveal_strlit("enabled");
    reveal_strlit("quit");
    assert("open"@[0] != "scan"@[0] && "open"@[0] != "enabled"@[0] && "open"@[0] != "quit"@[0]);
    assert("scan"@[0] != "enabled"@[0] && "scan"@[0] != "quit"@[0]);
    assert("enabled"@[0] != "quit"@[0]);
}

impl EngineState {
    /// Switches renaming on if it is off, and off if it is on.
    pub fn toggle_enabled(&mut self) -> (r: Vec<Effect>)
        ensures
            old(self).wf() ==> final(self).wf(),
            final(self)@ == (EngineView {
                enabled: !old(self)@.enabled,
                config: config::ConfigView { enabled: !old(self)@.enabled, ..old(self)@.config },
                ..old(self)@
            }),
            commands::effect_views(r@) == seq![
                commands::EffectView::SaveConfig,
                commands::EffectView::CheckTray(!old(self)@.enabled),
                commands::EffectView::EmitConfigChanged,
            ] + (if !old(self)@.enabled {
                seq![commands::EffectView::ScanAll]
            } else {
                seq![]
            }),
    {
        let on: bool = !self.enabled;
        self.apply_enabled(on)
    }
}

/// What happens to a window.
#[derive(Debug, Clone, Copy, PartialEq, Eq, Structural)]
pub enum WindowChange {
    CloseRequested,
    Other,
}

/// What becomes of the window.
#[derive(Debug, Clone, Copy, PartialEq, Eq, Structural)]
pub struct WindowReply {
    pub hide: bool,
    pub prevent_close: bool,
}

/// Closing the window only hides it; the program goes on in the tray.
pub fn on_window_event(change: WindowChange) -> (r: WindowReply)
    ensures
        r.hide == (change is CloseRequested),
        r.prevent_close == (change is CloseRequested),
{
    let closing: bool = match change {
        WindowChange::CloseRequested => true,
        WindowChange::Other => false,
    };
    WindowReply { hide: closing, prevent_close: closing }
}

/// Whether a request to exit is turned down: all are that come without an exit code, as when the
/// last window is gone.
pub fn prevents_exit(code: Option<i32>) -> (r: bool)
    ensures
        r == (code is None),
{
    code.is_none()
}

/// What is learnt in the course of an update.
pub enum UpdateEvent {
    /// Updates cannot be looked for, or the search failed.
    Unavailable,
    UpToDate,
    /// There is a newer version.
    Found(String),
    /// The user wants it, or not.
    Answered(bool),
    Installed,
    InstallFailed(String),
}

/// What to do next about an update.
pub enum UpdateAction {
    Stop,
    /// Ask the user: a title, a message, and the labels to accept and to decline.
    Ask(String, String, String, String),
    Install,
    Restart,
    /// Tell the user: a title and a message.
    Tell(String, String),
}

pub enum UpdateEventView {
    Unavailable,
    UpToDate,
    Found(Seq<char>),
    Answered(bool),
    Installed,
    InstallFailed(Seq<char>),
}

pub enum UpdateActionView {
    Stop,
    Ask(Seq<char>, Seq<char>, Seq<char>, Seq<char>),
    Install,
    Restart,
    Tell(Seq<char>, Seq<char>),
}

impl View for UpdateEvent {
    type V = UpdateEventView;

    open spec fn view(&self) -> UpdateEventView {
        match *self {
            UpdateEvent::Unavailable => UpdateEventView::Unavailable,
            UpdateEvent::UpToDate => UpdateEventView::UpToDate,
            UpdateEvent::Found(version) => UpdateEventView::Found(version@),
            UpdateEvent::Answered(yes) => UpdateEventView::Answered(yes),
            UpdateEvent::Installed => UpdateEventView::Installed,
            UpdateEvent::InstallFailed(e) => UpdateEventView::InstallFailed(e@),
        }
    }
}

impl View for UpdateAction {
    type V = UpdateActionView;

    open spec fn view(&self) -> UpdateActionView {
        match *self {
            UpdateAction::Stop => UpdateActionView::Stop,
            UpdateAction::Ask(title, message, accept, decline) => UpdateActionView::Ask(
                title@,
                message@,
                accept@,
                decline@,
            ),
            UpdateAction::Install => UpdateActionView::Install,
            UpdateAction::Restart => UpdateActionView::Restart,
            UpdateAction::Tell(title, message) => UpdateActionView::Tell(title@, message@),
        }
    }
}

/// A newer version is installed only if the user agrees, and the program restarts only once it is
/// installed.
pub open spec fn update_action(event: UpdateEventView) -> UpdateActionView {
    match event {
        UpdateEventView::Unavailable => UpdateActionView::Stop,
        UpdateEventView::UpToDate => UpdateActionView::Stop,
        UpdateEventView::Found(version) => UpdateActionView::Ask(
            "Jamoa 업데이트"@,
            "새 버전 v"@ + version
                + "이 나왔습니다. 지금 업데이트할까요?\n(다운로드 후 자동으로 재시작됩니다)"@,
            "업데이트"@,
            "나중에"@,
        ),
        UpdateEventView::Answered(yes) => if yes {
            UpdateActionView::Install
        } else {
            UpdateActionView::Stop
        },
        UpdateEventView::Installed => UpdateActionView::Restart,
        UpdateEventView::InstallFailed(e) => UpdateActionView::Tell(
            "Jamoa 업데이트"@,
            "업데이트에 실패했습니다: "@ + e,
        ),
    }
}

/// What to do next about an update.
pub fn update_step(event: UpdateEvent) -> (r: UpdateAction)
    ensures
        r@ == update_action(event@),
{
    match event {
        UpdateEvent::Unavailable => UpdateAction::Stop,
        UpdateEvent::UpToDate => UpdateAction::Stop,
        UpdateEvent::Found(version) => {
            let mut message: String = "새 버전 v".to_owned();
            message.append(version.as_str());
            message.append(
                "이 나왔습니다. 지금 업데이트할까요?\n(다운로드 후 자동으로 재시작됩니다)",
            );
            UpdateAction::Ask(
                "Jamoa 업데이트".to_owned(),
                message,
                "업데이트".to_owned(),
                "나중에".to_owned(),
            )
        },
        UpdateEvent::Answered(yes) => if yes {
            UpdateAction::Install
        } else {
            UpdateAction::Stop
        },
        UpdateEvent::Installed => UpdateAction::Restart,
        UpdateEvent::InstallFailed(e) => {
            let mut message: String = "업데이트에 실패했습니다: ".to_owned();
            message.append(e.as_str());
            UpdateAction::Tell("Jamoa 업데이트".to_owned(), message)
        },
    }
}

} // verus!
